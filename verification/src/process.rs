//! The process supervisor: the unit of execution is a `Process`, one live
//! guest instance together with its ordered child processes and its
//! captured output. The supervisor decisions live here: how a spawn request
//! grows the child row and what handle it earns, how a tick pass walks the
//! children in creation order, and how a child that reports a nonzero
//! status is removed without skipping the sibling that followed it. The
//! guest instances themselves are driven by the embedding around the
//! library, which calls these functions between guest entry points.
use crate::rw_cursor::CursorModel;
use crate::rw_cursor::RwCursor;
use crate::rw_cursor::read_amount;
use crate::rw_cursor::read_model;
use crate::rw_cursor::read_result;
use crate::rw_cursor::unread;
use crate::rw_cursor::write_model;
use crate::rw_cursor::lemma_write_appends;
use crate::rw_cursor::lemma_pipe_fifo;
use crate::rw_cursor::lemma_read_in_order;
use vstd::math::min;
use vstd::prelude::*;

verus! {

/// The lifecycle of a process. A process is `Created` until its first tick,
/// `Running` afterwards, and `Terminated` once a tick of it reports a
/// nonzero status; a terminated process is removed from its parent's child
/// row at that moment.
#[derive(PartialEq, Eq, Structural, Clone, Copy, Debug)]
pub enum ProcState {
    Created,
    Running,
    Terminated,
}

/// An append-only, never-overshooting pipe: all writes happened at the end,
/// and the read position never passed the end.
pub open spec fn pipe_wf(m: CursorModel) -> bool {
    m.pos_w == m.data.len() && 0 <= m.pos_r <= m.data.len()
}

/// One process of the supervised tree: its fixed framebuffer address in
/// guest memory, its lifecycle state, its output pipe, and its children in
/// creation order.
pub struct Process {
    buf_mem_addr: u32,
    state: ProcState,
    out: RwCursor,
    children: Vec<Process>,
}

impl Process {
    /// The guest-memory address reserved for the shared framebuffer.
    pub closed spec fn addr_spec(self) -> u32 {
        self.buf_mem_addr
    }

    /// Where the process stands in its lifecycle.
    pub closed spec fn state_spec(self) -> ProcState {
        self.state
    }

    /// The model of the process's output pipe.
    pub closed spec fn pipe_spec(self) -> CursorModel {
        self.out@
    }

    /// The child processes, in creation order.
    pub closed spec fn children_spec(self) -> Seq<Process> {
        self.children@
    }

    /// Well-formedness: the output pipe of this process and of every
    /// process below it is an append-only pipe.
    pub open spec fn wf(self) -> bool
        decreases self,
    {
        pipe_wf(self.pipe_spec()) && (forall|i: int|
            0 <= i < self.children_spec().len() ==> (#[trigger] self.children_spec()[i]).wf())
    }

    /// A fresh process: not yet ticked, no children, an empty pipe, and the
    /// framebuffer address it will keep for its whole lifetime.
    pub fn new(buf_mem_addr: u32) -> (p: Process)
        ensures
            p.addr_spec() == buf_mem_addr,
            p.state_spec() == ProcState::Created,
            p.children_spec() == Seq::<Process>::empty(),
            unread(p.pipe_spec()).len() == 0,
            p.pipe_spec().data.len() == 0,
            p.wf(),
    {
        let p = Process {
            buf_mem_addr,
            state: ProcState::Created,
            out: RwCursor::new(Vec::new()),
            children: Vec::new(),
        };
        proof {
            assert(p.children_spec() =~= Seq::<Process>::empty());
        }
        p
    }

    /// The number of live children.
    pub fn child_count(&self) -> (n: usize)
        ensures
            n == self.children_spec().len(),
    {
        self.children.len()
    }

    /// Where the process stands in its lifecycle.
    pub fn state(&self) -> (s: ProcState)
        ensures
            s == self.state_spec(),
    {
        self.state
    }

    /// The framebuffer address, which never changes after creation.
    pub fn buf_mem_addr(&self) -> (a: u32)
        ensures
            a == self.addr_spec(),
    {
        self.buf_mem_addr
    }

    /// A tick is starting on this process: a `Created` process becomes
    /// `Running`; everything else is untouched.
    pub fn begin_tick(&mut self)
        ensures
            final(self).state_spec() == ProcState::Running,
            final(self).addr_spec() == old(self).addr_spec(),
            final(self).pipe_spec() == old(self).pipe_spec(),
            final(self).children_spec() == old(self).children_spec(),
    {
        self.state = ProcState::Running;
    }

    /// Decide a spawn request once the module bytes have or have not been
    /// turned into a new live child: on success the child is appended to
    /// the child row and its 1-based handle is returned; on any failure the
    /// handle `0` is returned and the row is left unchanged.
    pub fn handle_spawn(&mut self, child: Option<Process>) -> (h: u64)
        ensures
            match child {
                Option::None => h == 0 && *final(self) == *old(self),
                Option::Some(c) => {
                    &&& h == old(self).children_spec().len() + 1
                    &&& h >= 1
                    &&& final(self).children_spec() == old(self).children_spec().push(c)
                    &&& final(self).addr_spec() == old(self).addr_spec()
                    &&& final(self).state_spec() == old(self).state_spec()
                    &&& final(self).pipe_spec() == old(self).pipe_spec()
                },
            },
    {
        match child {
            Option::None => 0,
            Option::Some(c) => {
                self.children.push(c);
                self.children.len() as u64
            },
        }
    }

    /// Remove and hand out the child at position `i`, so that it can be
    /// ticked while the row keeps its order.
    pub fn take_child(&mut self, i: usize) -> (c: Process)
        requires
            i < old(self).children_spec().len(),
        ensures
            c == old(self).children_spec()[i as int],
            final(self).children_spec() == old(self).children_spec().remove(i as int),
            final(self).addr_spec() == old(self).addr_spec(),
            final(self).state_spec() == old(self).state_spec(),
            final(self).pipe_spec() == old(self).pipe_spec(),
    {
        self.children.remove(i)
    }

    /// Record the outcome of ticking the child taken from position `i`.
    /// Status `0` means the child continues: it returns to its old position
    /// and the next sibling to tick is at `i + 1`. Any nonzero status means
    /// the child has exited: it is not put back, it is handed out as
    /// `Terminated` so its resources can be released, and the next sibling
    /// to tick is the one that now sits at `i` itself — removal never skips
    /// the sibling that followed.
    pub fn after_child_tick(&mut self, i: usize, child: Process, status: u32) -> (r: (
        usize,
        Option<Process>,
    ))
        requires
            i <= old(self).children_spec().len(),
        ensures
            status == 0 ==> {
                &&& final(self).children_spec() == old(self).children_spec().insert(
                    i as int,
                    child,
                )
                &&& r.0 == i + 1
                &&& r.1 is None
            },
            status != 0 ==> {
                &&& final(self).children_spec() == old(self).children_spec()
                &&& r.0 == i
                &&& r.1 matches Some(ended) && ended.state_spec() == ProcState::Terminated
                    && ended.addr_spec() == child.addr_spec() && ended.pipe_spec()
                    == child.pipe_spec() && ended.children_spec() == child.children_spec()
            },
            final(self).addr_spec() == old(self).addr_spec(),
            final(self).state_spec() == old(self).state_spec(),
            final(self).pipe_spec() == old(self).pipe_spec(),
    {
        if status == 0 {
            self.children.insert(i, child);
            // reading the row's length back bounds the next position
            let n = self.children.len();
            (i + 1, None)
        } else {
            let mut ended = child;
            ended.state = ProcState::Terminated;
            (i, Some(ended))
        }
    }

    /// Capture bytes the guest produced on its console into this process's
    /// output pipe, where they wait to be drained.
    pub fn pipe_write(&mut self, bytes: &Vec<u8>)
        requires
            old(self).wf(),
            old(self).pipe_spec().data.len() + bytes@.len() <= usize::MAX,
        ensures
            final(self).pipe_spec() == write_model(old(self).pipe_spec(), bytes@),
            unread(final(self).pipe_spec()) == unread(old(self).pipe_spec()) + bytes@,
            final(self).wf(),
            final(self).addr_spec() == old(self).addr_spec(),
            final(self).state_spec() == old(self).state_spec(),
            final(self).children_spec() == old(self).children_spec(),
    {
        proof {
            lemma_write_appends(self.out@, bytes@);
        }
        let _amt = self.out.write(bytes.as_slice());
        proof {
            assert(pipe_wf(self.pipe_spec()));
            assert(self.children_spec() == old(self).children_spec());
            assert(self.wf());
        }
    }

    /// Drain up to `buf_len` bytes from this process's own output pipe, as
    /// the `read_stdout` host call asks: the drained bytes are returned,
    /// may be fewer than asked for, and are never delivered twice; an empty
    /// pipe yields no bytes rather than blocking.
    pub fn read_stdout(&mut self, buf_len: u64) -> (data: Vec<u8>)
        requires
            old(self).wf(),
        ensures
            data@ == read_result(old(self).pipe_spec(), buf_len as int),
            data@.len() == read_amount(old(self).pipe_spec(), buf_len as int),
            final(self).pipe_spec() == read_model(old(self).pipe_spec(), buf_len as int),
            final(self).wf(),
            final(self).addr_spec() == old(self).addr_spec(),
            final(self).state_spec() == old(self).state_spec(),
            final(self).children_spec() == old(self).children_spec(),
    {
        let avail = self.out.remaining_slice_read().len();
        let n: usize = if buf_len < avail as u64 {
            buf_len as usize
        } else {
            avail
        };
        let mut buf: Vec<u8> = vec![0u8; n];
        let _got = self.out.read(&mut buf);
        proof {
            assert(buf@ =~= read_result(old(self).pipe_spec(), buf_len as int));
            assert(read_model(old(self).pipe_spec(), n as int) == read_model(
                old(self).pipe_spec(),
                buf_len as int,
            ));
            assert(pipe_wf(self.pipe_spec()));
            assert(self.children_spec() == old(self).children_spec());
            assert(self.wf());
        }
        buf
    }
}

/// The children that remain after one tick pass over a row of siblings:
/// `ticked[i]` is the value of child `i` after its own tick and
/// `statuses[i]` the status that tick reported. The pass keeps, in order,
/// exactly the children whose status was `0`.
pub open spec fn prune_pass(ticked: Seq<Process>, statuses: Seq<u32>) -> Seq<Process>
    decreases ticked.len(),
{
    if ticked.len() == 0 {
        ticked
    } else {
        let rest = prune_pass(ticked.drop_first(), statuses.drop_first());
        if statuses[0] == 0 {
            seq![ticked[0]] + rest
        } else {
            rest
        }
    }
}

/// A process that keeps reporting status `0` is never removed: a pass in
/// which every status is `0` keeps every child, in order, so ticking such
/// a row over and over never shrinks it.
pub proof fn lemma_all_live_pass_keeps_all(ticked: Seq<Process>, statuses: Seq<u32>)
    requires
        statuses.len() == ticked.len(),
        forall|i: int| 0 <= i < statuses.len() ==> statuses[i] == 0,
    ensures
        prune_pass(ticked, statuses) == ticked,
    decreases ticked.len(),
{
    if ticked.len() > 0 {
        lemma_all_live_pass_keeps_all(ticked.drop_first(), statuses.drop_first());
        assert(seq![ticked[0]] + ticked.drop_first() =~= ticked);
    }
}

/// A child whose tick reported status `0` is still in the row the pass
/// produces.
pub proof fn lemma_live_child_kept(ticked: Seq<Process>, statuses: Seq<u32>, i: int)
    requires
        statuses.len() == ticked.len(),
        0 <= i < ticked.len(),
        statuses[i] == 0,
    ensures
        prune_pass(ticked, statuses).contains(ticked[i]),
    decreases ticked.len(),
{
    if i == 0 {
        assert(prune_pass(ticked, statuses)[0] == ticked[0]);
    } else {
        lemma_live_child_kept(ticked.drop_first(), statuses.drop_first(), i - 1);
        let rest = prune_pass(ticked.drop_first(), statuses.drop_first());
        let j = choose|j: int| 0 <= j < rest.len() && rest[j] == ticked.drop_first()[i - 1];
        if statuses[0] == 0 {
            assert(prune_pass(ticked, statuses)[j + 1] == ticked[i]);
        } else {
            assert(prune_pass(ticked, statuses)[j] == ticked[i]);
        }
    }
}

/// A child whose tick reported a nonzero status is gone from the row the
/// pass produces: the pass gives the same row as if that child had not
/// been there at all.
pub proof fn lemma_exited_child_absent(ticked: Seq<Process>, statuses: Seq<u32>, i: int)
    requires
        statuses.len() == ticked.len(),
        0 <= i < ticked.len(),
        statuses[i] != 0,
    ensures
        prune_pass(ticked, statuses) == prune_pass(ticked.remove(i), statuses.remove(i)),
    decreases ticked.len(),
{
    if i == 0 {
        assert(ticked.remove(0) =~= ticked.drop_first());
        assert(statuses.remove(0) =~= statuses.drop_first());
    } else {
        lemma_exited_child_absent(ticked.drop_first(), statuses.drop_first(), i - 1);
        assert(ticked.remove(i).drop_first() =~= ticked.drop_first().remove(i - 1));
        assert(statuses.remove(i).drop_first() =~= statuses.drop_first().remove(i - 1));
        assert(ticked.remove(i)[0] == ticked[0]);
        assert(statuses.remove(i)[0] == statuses[0]);
    }
}

/// The row as the supervisor's walk leaves it, starting at position `i`:
/// each iteration takes the child at the current position out, ticks it —
/// `ticked` and `statuses` list the outcomes in the order the children are
/// reached — and steps exactly as `after_child_tick` directs: a child with
/// status `0` goes back to its position and the walk moves on behind it; a
/// child with a nonzero status stays out and the walk stays at the same
/// position.
pub open spec fn walk_row(
    cs: Seq<Process>,
    i: int,
    ticked: Seq<Process>,
    statuses: Seq<u32>,
) -> Seq<Process>
    decreases cs.len() - i,
{
    if i < 0 || i >= cs.len() || ticked.len() != cs.len() - i || statuses.len() != cs.len() - i {
        cs
    } else {
        let removed = cs.remove(i);
        if statuses[0] == 0 {
            walk_row(
                removed.insert(i, ticked[0]),
                i + 1,
                ticked.drop_first(),
                statuses.drop_first(),
            )
        } else {
            walk_row(removed, i, ticked.drop_first(), statuses.drop_first())
        }
    }
}

/// The index-based walk and the pass agree: stepping through a row with
/// `after_child_tick`'s positions visits every child exactly once and
/// leaves, behind the starting point, exactly the pass over the visited
/// children — so everything proved of `prune_pass` holds of the walk.
pub proof fn lemma_walk_is_prune_pass(
    cs: Seq<Process>,
    i: int,
    ticked: Seq<Process>,
    statuses: Seq<u32>,
)
    requires
        0 <= i <= cs.len(),
        ticked.len() == cs.len() - i,
        statuses.len() == cs.len() - i,
    ensures
        walk_row(cs, i, ticked, statuses) == cs.take(i) + prune_pass(ticked, statuses),
    decreases cs.len() - i,
{
    if i == cs.len() {
        assert(cs.take(i) + prune_pass(ticked, statuses) =~= cs);
    } else {
        let removed = cs.remove(i);
        if statuses[0] == 0 {
            let put_back = removed.insert(i, ticked[0]);
            lemma_walk_is_prune_pass(
                put_back,
                i + 1,
                ticked.drop_first(),
                statuses.drop_first(),
            );
            assert(put_back.take(i + 1) =~= cs.take(i).push(ticked[0]));
            assert(cs.take(i).push(ticked[0]) + prune_pass(
                ticked.drop_first(),
                statuses.drop_first(),
            ) =~= cs.take(i) + (seq![ticked[0]] + prune_pass(
                ticked.drop_first(),
                statuses.drop_first(),
            )));
        } else {
            lemma_walk_is_prune_pass(removed, i, ticked.drop_first(), statuses.drop_first());
            assert(removed.take(i) =~= cs.take(i));
        }
    }
}

/// Removing the child at position `i` moves the sibling that followed it
/// to position `i` itself: ticking position `i` again next, as
/// `after_child_tick` directs after a removal, reaches exactly that
/// sibling — nothing is skipped.
pub proof fn lemma_no_skip(children: Seq<Process>, i: int)
    requires
        0 <= i,
        i + 1 < children.len(),
    ensures
        children.remove(i)[i] == children[i + 1],
{
}

/// The row after a run of spawns, each appending one child as
/// `handle_spawn` does on success.
pub open spec fn push_all(children: Seq<Process>, xs: Seq<Process>) -> Seq<Process>
    decreases xs.len(),
{
    if xs.len() == 0 {
        children
    } else {
        push_all(children.push(xs[0]), xs.drop_first())
    }
}

/// Spawns line the children up in spawn order: spawning `xs` one by one
/// appends them behind the existing row, so the `k`th spawn sits at index
/// `children.len() + k` — the position its returned handle names — and a
/// tick pass, which walks positions in order, reaches the spawned children
/// in that same order.
pub proof fn lemma_spawn_order(children: Seq<Process>, xs: Seq<Process>)
    ensures
        push_all(children, xs) == children + xs,
    decreases xs.len(),
{
    if xs.len() == 0 {
        assert(children + xs =~= children);
    } else {
        lemma_spawn_order(children.push(xs[0]), xs.drop_first());
        assert(children.push(xs[0]) + xs.drop_first() =~= children + xs);
    }
}

/// The frame a tick pass produces: the root's buffer is copied out first
/// as the base, then each child's buffer in tick order overwrites the
/// whole frame.
pub open spec fn compose_frames(base: Seq<u8>, frames: Seq<Seq<u8>>) -> Seq<u8>
    decreases frames.len(),
{
    if frames.len() == 0 {
        base
    } else {
        compose_frames(frames[0], frames.drop_first())
    }
}

/// Composition is deterministic in the buffers and their order, and later
/// children win ties: the frame a pass leaves behind is the last buffer
/// copied into it.
pub proof fn lemma_compose_last_wins(base: Seq<u8>, frames: Seq<Seq<u8>>)
    ensures
        compose_frames(base, frames) == (if frames.len() == 0 {
            base
        } else {
            frames.last()
        }),
    decreases frames.len(),
{
    if frames.len() > 0 {
        lemma_compose_last_wins(frames[0], frames.drop_first());
        if frames.len() > 1 {
            assert(frames.drop_first().last() == frames.last());
        }
    }
}

/// What `read_stdout` hands back over two drains, after the guest wrote
/// the byte runs `a` and then `b` into a drained pipe: the drains together
/// return a prefix of `a + b`, in order — nothing is reordered, repeated
/// or invented, and whatever was not yet drained stays for later drains.
pub proof fn lemma_stdout_round(m: CursorModel, a: Seq<u8>, b: Seq<u8>, n1: int, n2: int)
    requires
        pipe_wf(m),
        unread(m).len() == 0,
        0 <= n1,
        0 <= n2,
    ensures
        ({
            let after = write_model(write_model(m, a), b);
            read_result(after, n1) + read_result(read_model(after, n1), n2) == (a + b).take(
                min(n1 + n2, a.len() + b.len() as int),
            )
        }),
{
    lemma_pipe_fifo(m, a, b);
    lemma_write_appends(m, a);
    lemma_write_appends(write_model(m, a), b);
    lemma_read_in_order(write_model(write_model(m, a), b), n1, n2);
}

} // verus!
