//! The virtual file system the host exposes to guests: a path-addressed
//! folder/file tree. Paths are cleaned of one leading and one trailing
//! separator, `.` is mapped to the reserved sentinel character `$`, and
//! path segments may hold only letters, digits, `_`, `-` and `$`; anything
//! else is rejected as invalid. Creation walks the existing tree and
//! reports exactly why it cannot proceed: a missing intermediate folder, a
//! file standing where a folder is needed, or a name already taken.
use vstd::prelude::*;
use vstd::string::StrSliceExecFns;
use vstd::string::StringExecFns;

verus! {

/// The typed failures of the file system.
#[derive(Debug, Clone, Copy, PartialEq, Eq, Structural)]
pub enum VFSError {
    CreatePathAlreadyExists,
    CreatePathDoesNotExist,
    FilePathIsFolder,
    FolderPathIsFile,
    PathInvalid,
}

/// The characters a path segment may hold: letters, digits, `_`, `-` and
/// the sentinel `$`.
pub open spec fn path_char(c: char) -> bool {
    ('a' as u32) <= (c as u32) && (c as u32) <= ('z' as u32) || ('A' as u32) <= (c as u32) && (c
        as u32) <= ('Z' as u32) || ('0' as u32) <= (c as u32) && (c as u32) <= ('9' as u32) || c
        == '_' || c == '-' || c == '$'
}

/// Whether one path segment holds only accepted characters.
pub open spec fn seg_ok(s: Seq<char>) -> bool {
    forall|i: int| 0 <= i < s.len() ==> path_char(#[trigger] s[i])
}

/// Whether every segment of a split path holds only accepted characters.
pub open spec fn path_ok(segs: Seq<Seq<char>>) -> bool {
    forall|i: int| 0 <= i < segs.len() ==> seg_ok(#[trigger] segs[i])
}

/// `.` is reserved: it is mapped to the sentinel `$` before any other
/// handling.
pub open spec fn sentinel_of(c: char) -> char {
    if c == '.' {
        '$'
    } else {
        c
    }
}

/// A path as `clean_path` leaves it: every `.` replaced by the sentinel,
/// then one leading and one trailing separator stripped.
pub open spec fn cleaned(s: Seq<char>) -> Seq<char> {
    let m = s.map_values(|c: char| sentinel_of(c));
    let m1 = if m.len() > 0 && m[0] == '/' {
        m.drop_first()
    } else {
        m
    };
    if m1.len() > 0 && m1.last() == '/' {
        m1.drop_last()
    } else {
        m1
    }
}

/// The segments of a path, split at every separator; a path without a
/// separator is one segment, and the empty path is one empty segment.
pub open spec fn split_spec(s: Seq<char>) -> Seq<Seq<char>>
    decreases s.len(),
{
    if s.len() == 0 {
        seq![Seq::<char>::empty()]
    } else if s[0] == '/' {
        seq![Seq::<char>::empty()] + split_spec(s.drop_first())
    } else {
        let rest = split_spec(s.drop_first());
        seq![seq![s[0]] + rest[0]] + rest.drop_first()
    }
}

/// A split never yields an empty row of segments.
pub proof fn lemma_split_nonempty(s: Seq<char>)
    ensures
        split_spec(s).len() >= 1,
    decreases s.len(),
{
    if s.len() > 0 {
        lemma_split_nonempty(s.drop_first());
    }
}

/// The contents of a row of segments.
pub open spec fn seg_views(segs: Seq<String>) -> Seq<Seq<char>> {
    Seq::new(segs.len(), |i: int| segs[i]@)
}

/// Whether `c` is accepted in a path segment.
pub fn is_path_char(c: char) -> (b: bool)
    ensures
        b == path_char(c),
{
    let u = c as u32;
    ('a' as u32) <= u && u <= ('z' as u32) || ('A' as u32) <= u && u <= ('Z' as u32) || ('0'
        as u32) <= u && u <= ('9' as u32) || c == '_' || c == '-' || c == '$'
}

/// Clean a path: map `.` to the sentinel, then strip one leading and one
/// trailing separator.
#[verifier::loop_isolation(false)]
pub fn clean_path(path: &str) -> (r: String)
    ensures
        r@ == cleaned(path@),
{
    let n = path.unicode_len();
    let start: usize = if n > 0 && path.get_char(0) == '/' {
        1
    } else {
        0
    };
    let end: usize = if n > start && path.get_char(n - 1) == '/' {
        n - 1
    } else {
        n
    };
    let mut r = String::new();
    proof {
        reveal_strlit("$");
    }
    let mut i: usize = start;
    while i < end
        invariant
            start <= i <= end,
            r@ =~= path@.subrange(start as int, i as int).map_values(
                |c: char| sentinel_of(c),
            ),
        decreases end - i,
    {
        let c = path.get_char(i);
        if c == '.' {
            r.append("$");
        } else {
            r.append(path.substring_char(i, i + 1));
        }
        proof {
            assert(r@ =~= path@.subrange(start as int, i + 1).map_values(
                |c: char| sentinel_of(c),
            ));
        }
        i = i + 1;
    }
    proof {
        assert(r@ =~= cleaned(path@));
    }
    r
}

/// Check that every segment of a path holds only accepted characters: the
/// path is handed back unchanged when it is valid, and refused as invalid
/// otherwise.
#[verifier::loop_isolation(false)]
pub fn validate_path(path: Vec<String>) -> (r: Result<Vec<String>, VFSError>)
    ensures
        match r {
            Ok(v) => v == path && path_ok(seg_views(path@)),
            Err(e) => e == VFSError::PathInvalid && !path_ok(seg_views(path@)),
        },
{
    let mut i: usize = 0;
    while i < path.len()
        invariant
            i <= path@.len(),
            forall|j: int| 0 <= j < i ==> seg_ok(#[trigger] seg_views(path@)[j]),
        decreases path@.len() - i,
    {
        if !seg_chars_ok(&path[i]) {
            proof {
                assert(seg_views(path@)[i as int] == path@[i as int]@);
                assert(!path_ok(seg_views(path@)));
            }
            return Err(VFSError::PathInvalid);
        }
        i = i + 1;
    }
    Ok(path)
}

/// Whether one segment holds only accepted characters.
#[verifier::loop_isolation(false)]
fn seg_chars_ok(s: &String) -> (b: bool)
    ensures
        b == seg_ok(s@),
{
    let st = s.as_str();
    let n = st.unicode_len();
    let mut i: usize = 0;
    while i < n
        invariant
            i <= n,
            n == s@.len(),
            forall|j: int| 0 <= j < i ==> path_char(#[trigger] s@[j]),
        decreases n - i,
    {
        if !is_path_char(st.get_char(i)) {
            return false;
        }
        i = i + 1;
    }
    true
}

/// Split a path at every separator into its segments.
#[verifier::loop_isolation(false)]
pub fn split_path(s: &String) -> (segs: Vec<String>)
    ensures
        seg_views(segs@) == split_spec(s@),
{
    let st = s.as_str();
    let n = st.unicode_len();
    let mut segs: Vec<String> = Vec::new();
    let mut cur = String::new();
    proof {
        assert(prepend_first(cur@, split_spec(s@)) =~~= split_spec(s@)) by {
            lemma_split_nonempty(s@);
        }
        assert(seg_views(segs@) + prepend_first(cur@, split_spec(s@)) =~~= split_spec(s@));
        assert(s@.skip(0) =~= s@);
    }
    let mut i: usize = 0;
    while i < n
        invariant
            i <= n,
            n == s@.len(),
            seg_views(segs@) + prepend_first(cur@, split_spec(s@.skip(i as int))) =~~= split_spec(
                s@,
            ),
        decreases n - i,
    {
        let ghost pre_segs = segs@;
        let ghost pre_cur = cur@;
        let c = st.get_char(i);
        proof {
            assert(s@.skip(i as int)[0] == s@[i as int]);
            assert(s@.skip(i as int).drop_first() =~= s@.skip(i + 1));
            lemma_split_nonempty(s@.skip(i + 1));
        }
        if c == '/' {
            segs.push(cur);
            cur = String::new();
            proof {
                assert(seg_views(segs@) =~~= seg_views(pre_segs).push(pre_cur));
                assert(seg_views(segs@) + prepend_first(cur@, split_spec(s@.skip(i + 1)))
                    =~~= seg_views(pre_segs) + prepend_first(
                    pre_cur,
                    split_spec(s@.skip(i as int)),
                ));
            }
        } else {
            cur.append(st.substring_char(i, i + 1));
            proof {
                let rest = split_spec(s@.skip(i + 1));
                assert(prepend_first(pre_cur, split_spec(s@.skip(i as int))) =~~= seq![
                    pre_cur + (seq![s@[i as int]] + rest[0]),
                ] + rest.drop_first());
                assert(pre_cur + (seq![s@[i as int]] + rest[0]) =~= cur@ + rest[0]);
                assert(prepend_first(pre_cur, split_spec(s@.skip(i as int))) =~~= prepend_first(
                    cur@,
                    rest,
                ));
            }
        }
        i = i + 1;
    }
    proof {
        assert(s@.skip(n as int) =~= Seq::<char>::empty());
        assert(split_spec(s@.skip(n as int)) =~~= seq![Seq::<char>::empty()]);
        assert(prepend_first(cur@, split_spec(s@.skip(n as int))) =~~= seq![cur@]);
    }
    segs.push(cur);
    proof {
        assert(seg_views(segs@) =~~= split_spec(s@));
    }
    segs
}

/// A row of segments with `c` glued to the front of its first segment.
pub open spec fn prepend_first(c: Seq<char>, segs: Seq<Seq<char>>) -> Seq<Seq<char>> {
    seq![c + segs[0]] + segs.drop_first()
}

/// The mathematical model of one tree item: a folder is its named entries
/// in insertion order, a file is its recorded disk path.
pub ghost enum ItemModel {
    Folder(Seq<(Seq<char>, ItemModel)>),
    File(Seq<char>),
}

/// Look a name up among a folder's entries: the first entry carrying it.
pub open spec fn find_model(entries: Seq<(Seq<char>, ItemModel)>, name: Seq<char>) -> Option<
    ItemModel,
>
    decreases entries.len(),
{
    if entries.len() == 0 {
        Option::None
    } else if entries[0].0 == name {
        Option::Some(entries[0].1)
    } else {
        find_model(entries.drop_first(), name)
    }
}

/// Whether a folder already has an entry of this name.
pub open spec fn has_name(entries: Seq<(Seq<char>, ItemModel)>, name: Seq<char>) -> bool {
    find_model(entries, name) is Some
}

/// A folder's entries with the item under `name` replaced, its position
/// and every other entry untouched.
pub open spec fn update_name(
    entries: Seq<(Seq<char>, ItemModel)>,
    name: Seq<char>,
    item: ItemModel,
) -> Seq<(Seq<char>, ItemModel)>
    decreases entries.len(),
{
    if entries.len() == 0 {
        entries
    } else if entries[0].0 == name {
        seq![(name, item)] + entries.drop_first()
    } else {
        seq![entries[0]] + update_name(entries.drop_first(), name, item)
    }
}

/// The outcome of creating `item` under `name` in the folder that `path`
/// names, starting from a folder with these entries: the walk fails on the
/// first segment that does not exist or that names a file, creation fails
/// when the name is already taken, and on success the new entry is
/// appended at the end of the reached folder, everything else untouched.
pub open spec fn create_model(
    entries: Seq<(Seq<char>, ItemModel)>,
    path: Seq<Seq<char>>,
    name: Seq<char>,
    item: ItemModel,
) -> Result<Seq<(Seq<char>, ItemModel)>, VFSError>
    decreases path.len(),
{
    if path.len() == 0 {
        if has_name(entries, name) {
            Result::Err(VFSError::CreatePathAlreadyExists)
        } else {
            Result::Ok(entries.push((name, item)))
        }
    } else {
        match find_model(entries, path[0]) {
            Option::None => Result::Err(VFSError::CreatePathDoesNotExist),
            Option::Some(ItemModel::File(_)) => Result::Err(VFSError::FolderPathIsFile),
            Option::Some(ItemModel::Folder(sub)) => match create_model(
                sub,
                path.drop_first(),
                name,
                item,
            ) {
                Result::Err(e) => Result::Err(e),
                Result::Ok(sub2) => Result::Ok(
                    update_name(entries, path[0], ItemModel::Folder(sub2)),
                ),
            },
        }
    }
}

/// A file of the tree: it records the path under which its contents live.
pub struct File {
    disk_path: String,
}

/// One named child of a folder: another folder, or a file.
pub enum VFSItem {
    Folder(Folder),
    File(File),
}

/// A folder: its named children, in insertion order, each name unique
/// while every change goes through the creation calls.
pub struct Folder {
    children: Vec<(String, VFSItem)>,
}

/// The model of one item.
pub closed spec fn item_model(item: VFSItem) -> ItemModel
    decreases item,
{
    match item {
        VFSItem::Folder(f) => ItemModel::Folder(entries_model(f.children@)),
        VFSItem::File(file) => ItemModel::File(file.disk_path@),
    }
}

/// The model of a row of named children.
pub closed spec fn entries_model(entries: Seq<(String, VFSItem)>) -> Seq<(Seq<char>, ItemModel)>
    decreases entries,
{
    if entries.len() == 0 {
        Seq::empty()
    } else {
        seq![(entries[0].0@, item_model(entries[0].1))] + entries_model(entries.drop_first())
    }
}

/// The model of a row of children, entry by entry.
pub proof fn lemma_entries_model(entries: Seq<(String, VFSItem)>)
    ensures
        entries_model(entries).len() == entries.len(),
        forall|i: int|
            0 <= i < entries.len() ==> #[trigger] entries_model(entries)[i] == (
                entries[i].0@,
                item_model(entries[i].1),
            ),
    decreases entries.len(),
{
    if entries.len() > 0 {
        lemma_entries_model(entries.drop_first());
    }
}

/// Looking up a name whose first occurrence sits at position `k` yields
/// that entry's item.
pub proof fn lemma_find_model_found(
    entries: Seq<(Seq<char>, ItemModel)>,
    name: Seq<char>,
    k: int,
)
    requires
        0 <= k < entries.len(),
        entries[k].0 == name,
        forall|j: int| 0 <= j < k ==> entries[j].0 != name,
    ensures
        find_model(entries, name) == Option::Some(entries[k].1),
    decreases k,
{
    if k > 0 {
        lemma_find_model_found(entries.drop_first(), name, k - 1);
    }
}

/// Looking up a name no entry carries yields nothing.
pub proof fn lemma_find_model_none(entries: Seq<(Seq<char>, ItemModel)>, name: Seq<char>)
    requires
        forall|j: int| 0 <= j < entries.len() ==> entries[j].0 != name,
    ensures
        find_model(entries, name) is None,
    decreases entries.len(),
{
    if entries.len() > 0 {
        lemma_find_model_none(entries.drop_first(), name);
    }
}

impl File {
    /// The path under which the file's contents live.
    pub closed spec fn path_spec(self) -> Seq<char> {
        self.disk_path@
    }

    /// A fresh file recorded under the given path.
    pub fn empty(vfs_path: String) -> (f: File)
        ensures
            f.path_spec() == vfs_path@,
            item_model(VFSItem::File(f)) == ItemModel::File(vfs_path@),
    {
        File { disk_path: vfs_path }
    }

    /// The recorded path.
    pub fn disk_path(&self) -> (p: &String)
        ensures
            p@ == self.path_spec(),
    {
        &self.disk_path
    }
}

impl View for Folder {
    type V = Seq<(Seq<char>, ItemModel)>;

    closed spec fn view(&self) -> Seq<(Seq<char>, ItemModel)> {
        entries_model(self.children@)
    }
}

impl Folder {
    /// A folder with no children.
    pub fn empty() -> (f: Folder)
        ensures
            f@ == Seq::<(Seq<char>, ItemModel)>::empty(),
            item_model(VFSItem::Folder(f)) == ItemModel::Folder(Seq::empty()),
    {
        Folder { children: Vec::new() }
    }

    /// How many children the folder has.
    pub fn child_count(&self) -> (n: usize)
        ensures
            n == self@.len(),
    {
        proof {
            lemma_entries_model(self.children@);
        }
        self.children.len()
    }

    /// The child at position `i`, with its name.
    pub fn entry_at(&self, i: usize) -> (e: &(String, VFSItem))
        requires
            i < self@.len(),
        ensures
            e.0@ == self@[i as int].0,
            item_model(e.1) == self@[i as int].1,
    {
        proof {
            lemma_entries_model(self.children@);
        }
        &self.children[i]
    }

    /// The position of the child of this name, if there is one.
    #[verifier::loop_isolation(false)]
    fn find_index(&self, name: &String) -> (r: Option<usize>)
        ensures
            match r {
                Option::Some(k) => k < self@.len() && self@[k as int].0 == name@ && (forall|j: int|
                    0 <= j < k ==> self@[j].0 != name@),
                Option::None => forall|j: int| 0 <= j < self@.len() ==> self@[j].0 != name@,
            },
    {
        proof {
            lemma_entries_model(self.children@);
        }
        let mut i: usize = 0;
        while i < self.children.len()
            invariant
                i <= self.children@.len(),
                forall|j: int| 0 <= j < i ==> self@[j].0 != name@,
            decreases self.children@.len() - i,
        {
            let e = &self.children[i];
            if e.0 == *name {
                return Some(i);
            }
            i = i + 1;
        }
        None
    }

    /// Add a child under a name, refused when the name is already taken.
    pub fn insert_child(&mut self, name: String, item: VFSItem) -> (r: Result<(), VFSError>)
        ensures
            match r {
                Result::Ok(_) => !has_name(old(self)@, name@) && final(self)@ == old(
                    self,
                )@.push((name@, item_model(item))),
                Result::Err(e) => e == VFSError::CreatePathAlreadyExists && has_name(
                    old(self)@,
                    name@,
                ) && *final(self) == *old(self),
            },
    {
        match self.find_index(&name) {
            Some(k) => {
                proof {
                    lemma_find_model_found(self@, name@, k as int);
                }
                Err(VFSError::CreatePathAlreadyExists)
            },
            None => {
                proof {
                    lemma_find_model_none(self@, name@);
                    lemma_entries_model(self.children@);
                }
                self.children.push((name, item));
                proof {
                    lemma_entries_model(self.children@);
                    assert(self@ =~= old(self)@.push((name@, item_model(item))));
                }
                Ok(())
            },
        }
    }

    /// Add an empty folder as a direct child.
    pub fn create_folder_local(&mut self, name: String) -> (r: Result<(), VFSError>)
        ensures
            match create_model(old(self)@, Seq::empty(), name@, ItemModel::Folder(Seq::empty())) {
                Result::Ok(m) => r is Ok && final(self)@ == m,
                Result::Err(e) => r == Result::<(), VFSError>::Err(e) && *final(self) == *old(
                    self,
                ),
            },
    {
        self.insert_child(name, VFSItem::Folder(Folder::empty()))
    }

    /// Add a file as a direct child, recorded under `full_path`.
    pub fn create_file_local(&mut self, name: String, full_path: String) -> (r: Result<
        (),
        VFSError,
    >)
        ensures
            match create_model(old(self)@, Seq::empty(), name@, ItemModel::File(full_path@)) {
                Result::Ok(m) => r is Ok && final(self)@ == m,
                Result::Err(e) => r == Result::<(), VFSError>::Err(e) && *final(self) == *old(
                    self,
                ),
            },
    {
        self.insert_child(name, VFSItem::File(File::empty(full_path)))
    }

    /// Create `item` under `name` in the folder that the path segments
    /// from `idx` on name, walking down from this folder.
    fn create_item(&mut self, path: &Vec<String>, idx: usize, name: String, item: VFSItem) -> (r:
        Result<(), VFSError>)
        requires
            idx <= path@.len(),
        ensures
            match create_model(
                old(self)@,
                seg_views(path@).skip(idx as int),
                name@,
                item_model(item),
            ) {
                Result::Ok(m) => r is Ok && final(self)@ == m,
                Result::Err(e) => r == Result::<(), VFSError>::Err(e) && final(self)@ == old(
                    self,
                )@,
            },
        decreases path@.len() - idx,
    {
        let ghost segs = seg_views(path@).skip(idx as int);
        if idx == path.len() {
            proof {
                assert(segs =~~= Seq::<Seq<char>>::empty());
            }
            self.insert_child(name, item)
        } else {
            proof {
                assert(segs[0] == path@[idx as int]@);
                assert(segs.drop_first() =~~= seg_views(path@).skip(idx + 1));
            }
            match self.find_index(&path[idx]) {
                None => {
                    proof {
                        lemma_find_model_none(self@, path@[idx as int]@);
                    }
                    Err(VFSError::CreatePathDoesNotExist)
                },
                Some(k) => {
                    proof {
                        lemma_find_model_found(self@, path@[idx as int]@, k as int);
                        lemma_entries_model(self.children@);
                    }
                    let ghost pre = self@;
                    let ghost prechildren = self.children@;
                    let (ename, eitem) = self.children.remove(k);
                    match eitem {
                        VFSItem::File(file) => {
                            self.children.insert(k, (ename, VFSItem::File(file)));
                            proof {
                                assert(self.children@ =~= prechildren);
                            }
                            Err(VFSError::FolderPathIsFile)
                        },
                        VFSItem::Folder(mut g) => {
                            let ghost gpre = g@;
                            let r = g.create_item(path, idx + 1, name, item);
                            self.children.insert(k, (ename, VFSItem::Folder(g)));
                            proof {
                                lemma_entries_model(self.children@);
                                assert(pre[k as int].1 == ItemModel::Folder(gpre));
                                match create_model(gpre, segs.drop_first(), name@, item_model(item)) {
                                    Result::Ok(m2) => {
                                        assert(self@ =~= pre.update(
                                            k as int,
                                            (segs[0], ItemModel::Folder(g@)),
                                        ));
                                        lemma_update_name_at(
                                            pre,
                                            segs[0],
                                            ItemModel::Folder(m2),
                                            k as int,
                                        );
                                    },
                                    Result::Err(_) => {
                                        assert(self@ =~= pre);
                                    },
                                }
                            }
                            r
                        },
                    }
                },
            }
        }
    }

    /// Create an empty folder under `name` in the folder that the path
    /// segments from `idx` on name.
    pub fn create_folder(&mut self, path: &Vec<String>, idx: usize, name: String) -> (r: Result<
        (),
        VFSError,
    >)
        requires
            idx <= path@.len(),
        ensures
            match create_model(
                old(self)@,
                seg_views(path@).skip(idx as int),
                name@,
                ItemModel::Folder(Seq::empty()),
            ) {
                Result::Ok(m) => r is Ok && final(self)@ == m,
                Result::Err(e) => r == Result::<(), VFSError>::Err(e) && final(self)@ == old(
                    self,
                )@,
            },
    {
        self.create_item(path, idx, name, VFSItem::Folder(Folder::empty()))
    }

    /// Create a file under `name`, recorded under `full_path`, in the
    /// folder that the path segments from `idx` on name.
    pub fn create_file(
        &mut self,
        path: &Vec<String>,
        idx: usize,
        name: String,
        full_path: String,
    ) -> (r: Result<(), VFSError>)
        requires
            idx <= path@.len(),
        ensures
            match create_model(
                old(self)@,
                seg_views(path@).skip(idx as int),
                name@,
                ItemModel::File(full_path@),
            ) {
                Result::Ok(m) => r is Ok && final(self)@ == m,
                Result::Err(e) => r == Result::<(), VFSError>::Err(e) && final(self)@ == old(
                    self,
                )@,
            },
    {
        self.create_item(path, idx, name, VFSItem::File(File::empty(full_path)))
    }
}

/// Replacing the item under a name whose first occurrence sits at
/// position `k` is a pointwise update there.
pub proof fn lemma_update_name_at(
    entries: Seq<(Seq<char>, ItemModel)>,
    name: Seq<char>,
    item: ItemModel,
    k: int,
)
    requires
        0 <= k < entries.len(),
        entries[k].0 == name,
        forall|j: int| 0 <= j < k ==> entries[j].0 != name,
    ensures
        update_name(entries, name, item) == entries.update(k, (name, item)),
    decreases k,
{
    if k == 0 {
        assert(seq![(name, item)] + entries.drop_first() =~= entries.update(0, (name, item)));
    } else {
        lemma_update_name_at(entries.drop_first(), name, item, k - 1);
        assert(seq![entries[0]] + entries.drop_first().update(k - 1, (name, item))
            =~= entries.update(k, (name, item)));
    }
}

/// The file system as a whole: the path of the document it is persisted
/// to, and the root folder.
pub struct Vfs {
    disk_path: String,
    pub root: Folder,
}

/// The item a creation call builds: an empty folder, or a file recorded
/// under the cleaned path and name joined by a separator.
pub open spec fn vfs_new_item(cpath: Seq<char>, cname: Seq<char>, is_folder: bool) -> ItemModel {
    if is_folder {
        ItemModel::Folder(Seq::empty())
    } else {
        ItemModel::File(cpath + seq!['/'] + cname)
    }
}

/// The outcome of a creation call on the file system: the name and path
/// are cleaned; a name holding a character no segment may hold is invalid;
/// an empty cleaned path creates directly under the root; otherwise the
/// cleaned path is split, every segment must be valid, and creation walks
/// the tree from the root.
pub open spec fn vfs_create_outcome(
    root: Seq<(Seq<char>, ItemModel)>,
    path: Seq<char>,
    name: Seq<char>,
    is_folder: bool,
) -> Result<Seq<(Seq<char>, ItemModel)>, VFSError> {
    let cname = cleaned(name);
    let cpath = cleaned(path);
    let item = vfs_new_item(cpath, cname, is_folder);
    if !seg_ok(cname) {
        Result::Err(VFSError::PathInvalid)
    } else if cpath.len() == 0 {
        create_model(root, Seq::empty(), cname, item)
    } else if !path_ok(split_spec(cpath)) {
        Result::Err(VFSError::PathInvalid)
    } else {
        create_model(root, split_spec(cpath), cname, item)
    }
}

/// The tree a fresh file system starts with: a folder `test` holding one
/// file `test_file$txt` (its dot mapped to the sentinel), recorded under
/// `test/test_file$txt`.
pub open spec fn default_root_model() -> Seq<(Seq<char>, ItemModel)> {
    seq![
        (
            "test"@,
            ItemModel::Folder(
                seq![("test_file$txt"@, ItemModel::File("test/test_file$txt"@))],
            ),
        ),
    ]
}

impl Vfs {
    /// The path of the document the file system is persisted to.
    pub closed spec fn disk_path_spec(self) -> Seq<char> {
        self.disk_path@
    }

    /// The root folder.
    pub closed spec fn root_spec(self) -> Folder {
        self.root
    }

    /// The recorded document path.
    pub fn disk_path(&self) -> (p: &String)
        ensures
            p@ == self.disk_path_spec(),
    {
        &self.disk_path
    }

    /// Bring the file system up from what was read from its document: a
    /// stored root is taken as it is; where none could be read, a fresh
    /// tree with the default folder and file is started instead.
    pub fn load(disk_path: String, stored_root: Option<Folder>) -> (v: Vfs)
        ensures
            v.disk_path_spec() == disk_path@,
            match stored_root {
                Option::Some(r) => v.root_spec() == r,
                Option::None => v.root_spec()@ == default_root_model(),
            },
    {
        match stored_root {
            Some(r) => Vfs { disk_path, root: r },
            None => {
                let mut sub = Folder::empty();
                let _r1 = sub.create_file_local(
                    String::from_str("test_file$txt"),
                    String::from_str("test/test_file$txt"),
                );
                let mut root = Folder::empty();
                let _r2 = root.insert_child(String::from_str("test"), VFSItem::Folder(sub));
                proof {
                    assert(root@ =~~= default_root_model());
                }
                Vfs { disk_path, root }
            },
        }
    }

    /// Create a folder called `name` in the folder that `path` names.
    pub fn create_folder(&mut self, path: &str, name: &str) -> (r: Result<(), VFSError>)
        ensures
            final(self).disk_path_spec() == old(self).disk_path_spec(),
            match vfs_create_outcome(old(self).root_spec()@, path@, name@, true) {
                Result::Ok(m) => r is Ok && final(self).root_spec()@ == m,
                Result::Err(e) => r == Result::<(), VFSError>::Err(e) && final(self).root_spec()@
                    == old(self).root_spec()@,
            },
    {
        let name_c = clean_path(name);
        let path_c = clean_path(path);
        if !seg_chars_ok(&name_c) {
            return Err(VFSError::PathInvalid);
        }
        if path_c.as_str().unicode_len() == 0 {
            return self.root.create_folder_local(name_c);
        }
        let segs = split_path(&path_c);
        match validate_path(segs) {
            Err(e) => Err(e),
            Ok(v) => {
                proof {
                    assert(seg_views(v@).skip(0) =~~= split_spec(cleaned(path@)));
                }
                self.root.create_folder(&v, 0, name_c)
            },
        }
    }

    /// Create a file called `name` in the folder that `path` names,
    /// recorded under the joined path.
    pub fn create_file(&mut self, path: &str, name: &str) -> (r: Result<(), VFSError>)
        ensures
            final(self).disk_path_spec() == old(self).disk_path_spec(),
            match vfs_create_outcome(old(self).root_spec()@, path@, name@, false) {
                Result::Ok(m) => r is Ok && final(self).root_spec()@ == m,
                Result::Err(e) => r == Result::<(), VFSError>::Err(e) && final(self).root_spec()@
                    == old(self).root_spec()@,
            },
    {
        let name_c = clean_path(name);
        let path_c = clean_path(path);
        if !seg_chars_ok(&name_c) {
            return Err(VFSError::PathInvalid);
        }
        let mut full_path = path_c.clone();
        full_path.append("/");
        full_path.append(name_c.as_str());
        proof {
            reveal_strlit("/");
            assert(full_path@ =~= cleaned(path@) + seq!['/'] + cleaned(name@));
        }
        if path_c.as_str().unicode_len() == 0 {
            return self.root.create_file_local(name_c, full_path);
        }
        let segs = split_path(&path_c);
        match validate_path(segs) {
            Err(e) => Err(e),
            Ok(v) => {
                proof {
                    assert(seg_views(v@).skip(0) =~~= split_spec(cleaned(path@)));
                }
                self.root.create_file(&v, 0, name_c, full_path)
            },
        }
    }
}

/// A name just added at the end of a row that did not hold it is found
/// there.
pub proof fn lemma_find_model_push(
    entries: Seq<(Seq<char>, ItemModel)>,
    name: Seq<char>,
    item: ItemModel,
)
    requires
        !has_name(entries, name),
    ensures
        find_model(entries.push((name, item)), name) == Option::Some(item),
    decreases entries.len(),
{
    if entries.len() == 0 {
        assert(entries.push((name, item))[0] == (name, item));
    } else {
        assert(entries.push((name, item)).drop_first() =~= entries.drop_first().push(
            (name, item),
        ));
        lemma_find_model_push(entries.drop_first(), name, item);
    }
}

/// After the item under a present name is replaced, looking the name up
/// finds the replacement.
pub proof fn lemma_find_model_update(
    entries: Seq<(Seq<char>, ItemModel)>,
    name: Seq<char>,
    item: ItemModel,
)
    requires
        has_name(entries, name),
    ensures
        find_model(update_name(entries, name, item), name) == Option::Some(item),
    decreases entries.len(),
{
    if entries.len() > 0 && entries[0].0 != name {
        lemma_find_model_update(entries.drop_first(), name, item);
        assert(update_name(entries, name, item).drop_first() =~= update_name(
            entries.drop_first(),
            name,
            item,
        ));
    }
}

/// Creating the same name under the same path twice fails the second
/// time: whatever was created first now stands in the way, and the second
/// call reports that the path already exists.
pub proof fn lemma_create_twice(
    entries: Seq<(Seq<char>, ItemModel)>,
    path: Seq<Seq<char>>,
    name: Seq<char>,
    item1: ItemModel,
    item2: ItemModel,
)
    requires
        create_model(entries, path, name, item1) is Ok,
    ensures
        create_model(create_model(entries, path, name, item1)->Ok_0, path, name, item2)
            == Result::<Seq<(Seq<char>, ItemModel)>, VFSError>::Err(
            VFSError::CreatePathAlreadyExists,
        ),
    decreases path.len(),
{
    let made = create_model(entries, path, name, item1)->Ok_0;
    if path.len() == 0 {
        lemma_find_model_push(entries, name, item1);
    } else {
        let sub = find_model(entries, path[0])->Some_0->Folder_0;
        let sub2 = create_model(sub, path.drop_first(), name, item1)->Ok_0;
        lemma_create_twice(sub, path.drop_first(), name, item1, item2);
        lemma_find_model_update(entries, path[0], ItemModel::Folder(sub2));
    }
}

} // verus!
