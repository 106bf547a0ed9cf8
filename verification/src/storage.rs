//! Storage entries: the directory nodes of a container, starting at the
//! root. A `Storage` is a handle into a `CompoundFile`, carrying the entry
//! id it stands for; the container itself is passed to every operation that
//! reads or changes it.

use vstd::prelude::*;

use crate::consts::{NO_STREAM, OBJ_TYPE_ROOT, OBJ_TYPE_STORAGE};
use crate::container::{file_wf, renamed, CompoundFile, FileModel};
use crate::direntry::EntryModel;
use crate::error::CfbError;
use crate::names::{decoded_utf16, encode_utf16_units, lemma_utf16_empty, name_cmp, name_ord,
    utf16, utf16_lossy, NAME_MAX_UNITS};

verus! {

/// A storage entry in a compound file, much like a filesystem directory.
pub struct Storage {
    /// The entry id this handle stands for.
    pub stream_id: u32,
    /// The handle's path within the container; the root has path `/`.
    pub path: String,
    /// The entry's name when the handle was made.
    pub name: String,
    /// Whether the entry is the root entry.
    pub root: bool,
    /// The entry ids of the storages above this one, root first; empty for
    /// the root itself.
    pub ancestors: Vec<u32>,
    /// The paths of those storages, in the same order.
    pub ancestor_paths: Vec<String>,
}

impl Storage {
    /// The handle agrees with the container: its id names an entry whose
    /// name and kind are the ones the handle carries, its ancestor chain
    /// starts at the root and stays inside the directory, and the path `/`
    /// marks the root and nothing else, in the handle and all along its
    /// recorded ancestor paths.
    pub open spec fn attached(&self, m: FileModel) -> bool {
        &&& 0 <= (self.stream_id as int) < m.directory.len()
        &&& self.name@ == m.directory[self.stream_id as int].name
        &&& self.root == (m.directory[self.stream_id as int].obj_type == OBJ_TYPE_ROOT)
        &&& self.root <==> self.ancestors@.len() == 0
        &&& self.root <==> self.path@ == "/"@
        &&& self.ancestors@.len() == self.ancestor_paths@.len()
        &&& forall|i: int|
            0 <= i < self.ancestors@.len() ==> (#[trigger] self.ancestors@[i] as int)
                < m.directory.len()
        &&& self.ancestors@.len() > 0 ==> self.ancestors@[0] == 0
        &&& forall|i: int| 1 <= i < self.ancestors@.len() ==> (#[trigger] self.ancestors@[i]) != 0
        &&& forall|i: int|
            0 <= i < self.ancestor_paths@.len() ==> ((#[trigger] self.ancestor_paths@[i])@ == "/"@
                <==> self.ancestors@[i] == 0)
    }

    /// Returns the name of this storage entry.
    pub fn name(&self) -> (r: &str)
        ensures
            r@ == self.name@,
    {
        self.name.as_str()
    }

    /// Returns true if this is the root storage entry, false otherwise.
    pub fn is_root(&self) -> (r: bool)
        ensures
            r == self.root,
    {
        self.root
    }

    /// Returns this storage entry's path within the compound file. The root
    /// storage entry has a path of `/`.
    pub fn path(&self) -> (r: &str)
        ensures
            r@ == self.path@,
    {
        self.path.as_str()
    }

    /// Consumes this `Storage` object and returns its parent storage entry —
    /// the storage one level up, through which this handle was opened — or
    /// `None` if this was the root storage entry.
    pub fn parent(self, comp: &CompoundFile) -> (r: Option<Storage>)
        requires
            comp.wf(),
            self.attached(comp@),
        ensures
            r is None <==> self.root,
            r matches Some(p) ==> {
                &&& p.attached(comp@)
                &&& p.stream_id == self.ancestors@.last()
                &&& p.path@ == self.ancestor_paths@.last()@
                &&& p.ancestors@ == self.ancestors@.drop_last()
            },
    {
        if self.root {
            return None;
        }
        let mut ancestors = self.ancestors;
        let mut ancestor_paths = self.ancestor_paths;
        let pid = ancestors.pop().unwrap();
        let path = ancestor_paths.pop().unwrap();
        let p = Storage {
            stream_id: pid,
            path,
            name: comp.entry_name_clone(pid as usize),
            root: comp.entry_obj_type(pid as usize) == OBJ_TYPE_ROOT,
            ancestors,
            ancestor_paths,
        };
        Some(p)
    }

    /// Sets the name of this storage entry. Rejected as an invalid argument:
    /// renaming the root entry, a name of more than 31 UTF-16 code units, a
    /// name that matches another entry of the parent's sibling tree under
    /// the container's name ordering, and a name that would put the entry
    /// out of order in that tree. On success the name field of the entry's
    /// on-disk record is rewritten in place and nothing else of the
    /// container changes.
    pub fn set_name(&mut self, comp: &mut CompoundFile, name: &str) -> (r: Result<(), CfbError>)
        requires
            old(comp).wf(),
            old(self).attached(old(comp)@),
        ensures
            final(comp).wf(),
            match r {
                Ok(()) => {
                    &&& !old(self).root
                    &&& utf16(name@).len() <= NAME_MAX_UNITS
                    &&& spec_rename_guard(
                        old(comp)@.directory,
                        old(comp)@.directory[old(self).ancestors@.last() as int].child,
                        old(self).stream_id,
                        utf16(name@),
                        old(comp)@.directory.len() as int,
                    ) is Ok
                    &&& renamed(
                        old(comp)@,
                        final(comp)@,
                        old(self).stream_id as int,
                        utf16(name@),
                        name@,
                    )
                    &&& final(self).name@ == name@
                    &&& final(self).attached(final(comp)@)
                    &&& final(self).stream_id == old(self).stream_id
                    &&& final(self).path == old(self).path
                    &&& final(self).root == old(self).root
                },
                Err(e) => {
                    &&& final(comp)@ == old(comp)@
                    &&& *final(self) == *old(self)
                    &&& ((old(self).root || utf16(name@).len() > NAME_MAX_UNITS) ==> e
                        == CfbError::InvalidArgument)
                    &&& (!(old(self).root || utf16(name@).len() > NAME_MAX_UNITS)
                        ==> Err::<(), CfbError>(e) == spec_rename_guard(
                        old(comp)@.directory,
                        old(comp)@.directory[old(self).ancestors@.last() as int].child,
                        old(self).stream_id,
                        utf16(name@),
                        old(comp)@.directory.len() as int,
                    ))
                },
            },
    {
        if self.root {
            return Err(CfbError::InvalidArgument);
        }
        let units = encode_utf16_units(name);
        if units.len() > NAME_MAX_UNITS {
            return Err(CfbError::InvalidArgument);
        }
        let pid = self.ancestors[self.ancestors.len() - 1];
        let troot = comp.entry_child(pid as usize);
        let fuel = comp.entry_count();
        // A sibling already bearing the name, under the container's
        // ordering, is a conflict; a corrupt tree is malformed.
        match find_entry(comp, troot, &units, fuel) {
            Ok(x) => {
                if x != self.stream_id {
                    return Err(CfbError::InvalidArgument);
                }
            },
            Err(CfbError::NotFound) => {},
            Err(e) => {
                return Err(e);
            },
        }
        // The renamed entry must keep its place in the sibling tree: the
        // new name compares like the old one against every node on the path
        // down to the entry, and bounds the entry's own subtrees.
        match order_walk(comp, troot, self.stream_id, &units, fuel) {
            Ok(()) => {},
            Err(e) => {
                return Err(e);
            },
        }
        let links = comp.entry_links(self.stream_id as usize);
        match subtree_walk(comp, links.0, &units, -1, fuel) {
            Ok(()) => {},
            Err(e) => {
                return Err(e);
            },
        }
        match subtree_walk(comp, links.1, &units, 1, fuel) {
            Ok(()) => {},
            Err(e) => {
                return Err(e);
            },
        }
        let nm = utf16_lossy(&units);
        assert(nm@ == name@);
        let nm2 = nm.clone();
        comp.write_entry_name(self.stream_id as usize, &units, nm);
        self.name = nm2;
        proof {
            assert(comp@.directory[self.stream_id as int] == old(comp)@.directory.update(
                old(self).stream_id as int,
                EntryModel {
                    name: name@,
                    name_units: utf16(name@),
                    ..old(comp)@.directory[old(self).stream_id as int]
                },
            )[self.stream_id as int]);
        }
        Ok(())
    }
}

impl Storage {
    /// Opens the storage with the given name among this storage's children.
    /// An empty name, or one longer than 31 UTF-16 code units, is an invalid
    /// argument; a missing name is not-found; a child of another kind is the
    /// wrong kind; a corrupt sibling tree is malformed.
    pub fn open_storage(&self, comp: &CompoundFile, name: &str) -> (r: Result<Storage, CfbError>)
        requires
            comp.wf(),
            self.attached(comp@),
        ensures
            match r {
                Ok(st) => {
                    &&& 1 <= utf16(name@).len() <= NAME_MAX_UNITS
                    &&& spec_find(
                        comp@.directory,
                        comp@.directory[self.stream_id as int].child,
                        utf16(name@),
                        comp@.directory.len() as int,
                    ) == Ok::<u32, CfbError>(st.stream_id)
                    &&& comp@.directory[st.stream_id as int].obj_type == OBJ_TYPE_STORAGE
                    &&& st.attached(comp@)
                    &&& st.ancestors@ == self.ancestors@.push(self.stream_id)
                    &&& st.ancestor_paths@.last()@ == self.path@
                    &&& st.path@ == (if self.root {
                        "/"@
                    } else {
                        self.path@ + "/"@
                    }) + name@
                },
                Err(e) => {
                    if utf16(name@).len() > NAME_MAX_UNITS || utf16(name@).len() == 0 {
                        e == CfbError::InvalidArgument
                    } else {
                        match spec_find(
                            comp@.directory,
                            comp@.directory[self.stream_id as int].child,
                            utf16(name@),
                            comp@.directory.len() as int,
                        ) {
                            Err(fe) => e == fe,
                            Ok(id) => comp@.directory[id as int].obj_type != OBJ_TYPE_STORAGE && e
                                == CfbError::WrongKind,
                        }
                    }
                },
            },
    {
        let units = encode_utf16_units(name);
        if units.len() > NAME_MAX_UNITS || units.len() == 0 {
            return Err(CfbError::InvalidArgument);
        }
        let child = comp.entry_child(self.stream_id as usize);
        let fuel = comp.entry_count();
        let id = match find_entry(comp, child, &units, fuel) {
            Ok(id) => id,
            Err(e) => {
                return Err(e);
            },
        };
        proof {
            lemma_spec_find_in_range(comp@.directory, child, units@, fuel as int);
        }
        let obj = comp.entry_obj_type(id as usize);
        if obj != OBJ_TYPE_STORAGE {
            return Err(CfbError::WrongKind);
        }
        let prefix = if self.root {
            String::from_str("/")
        } else {
            self.path.clone().concat("/")
        };
        let path = prefix.concat(name);
        let mut ancestors = self.ancestors.clone();
        ancestors.push(self.stream_id);
        let mut ancestor_paths = self.ancestor_paths.clone();
        ancestor_paths.push(self.path.clone());
        proof {
            lemma_root_is_entry_zero(self, comp@);
            lemma_utf16_empty(name@);
            reveal_strlit("/");
            assert(path@.len() >= 2);
            assert(path@ != "/"@);
            assert forall|i: int| 0 <= i < ancestor_paths@.len() implies ((
            #[trigger] ancestor_paths@[i])@ == "/"@ <==> ancestors@[i] == 0) by {
                if i < self.ancestor_paths@.len() {
                    assert(ancestor_paths@[i] == self.ancestor_paths@[i]);
                    assert(ancestors@[i] == self.ancestors@[i]);
                }
            }
        }
        Ok(
            Storage {
                stream_id: id,
                path,
                name: comp.entry_name_clone(id as usize),
                root: false,
                ancestors,
                ancestor_paths,
            },
        )
    }
}

/// In a well-formed container the root flag of an attached handle marks
/// exactly entry 0: entry 0 is the one root-typed entry.
pub proof fn lemma_root_is_entry_zero(s: &Storage, m: FileModel)
    requires
        file_wf(m),
        s.attached(m),
    ensures
        s.root <==> s.stream_id == 0,
{
}

/// `spec_find` only hands back entry ids that lie inside the directory.
pub proof fn lemma_spec_find_in_range(dir: Seq<EntryModel>, cur: u32, units: Seq<u16>, fuel: int)
    ensures
        spec_find(dir, cur, units, fuel) matches Ok(id) ==> 0 <= id < dir.len(),
    decreases fuel,
{
    if cur != NO_STREAM && fuel > 0 && cur < dir.len() {
        lemma_spec_find_in_range(dir, dir[cur as int].left, units, fuel - 1);
        lemma_spec_find_in_range(dir, dir[cur as int].right, units, fuel - 1);
    }
}

impl CompoundFile {
    /// Returns the root storage (i.e. directory) within this compound file.
    pub fn root_storage(&self) -> (r: Storage)
        requires
            self.wf(),
        ensures
            r.attached(self@),
            r.stream_id == 0,
            r.root,
            r.path@ == "/"@,
    {
        Storage {
            stream_id: 0,
            path: String::from_str("/"),
            name: self.entry_name_clone(0),
            root: self.entry_obj_type(0) == OBJ_TYPE_ROOT,
            ancestors: Vec::new(),
            ancestor_paths: Vec::new(),
        }
    }
}

/// Walks the path of the sibling tree from `cur` down to entry `id`,
/// following the entry's current name, and demands that the new name
/// compares the same way against every node passed: a tree that does not
/// lead to the entry, or holds its name twice, is malformed; a new name that
/// matches a node on the path or turns the other way would break the
/// ordering and is an invalid argument.
pub open spec fn spec_order_walk(
    dir: Seq<EntryModel>,
    cur: u32,
    id: u32,
    new_units: Seq<u16>,
    fuel: int,
) -> Result<(), CfbError>
    decreases fuel,
{
    if cur == id {
        Ok(())
    } else if cur == NO_STREAM || fuel <= 0 || cur >= dir.len() {
        Err(CfbError::BadFormat)
    } else {
        let co = name_ord(dir[id as int].name_units, dir[cur as int].name_units);
        let cn = name_ord(new_units, dir[cur as int].name_units);
        if co == 0 {
            Err(CfbError::BadFormat)
        } else if cn != co {
            Err(CfbError::InvalidArgument)
        } else if co < 0 {
            spec_order_walk(dir, dir[cur as int].left, id, new_units, fuel - 1)
        } else {
            spec_order_walk(dir, dir[cur as int].right, id, new_units, fuel - 1)
        }
    }
}

/// Walks the path of the sibling tree down to entry `id`, checking the new
/// name against every node passed.
pub fn order_walk(comp: &CompoundFile, cur: u32, id: u32, new_units: &Vec<u16>, fuel: usize) -> (r:
    Result<(), CfbError>)
    requires
        (id as int) < comp@.directory.len(),
    ensures
        r == spec_order_walk(comp@.directory, cur, id, new_units@, fuel as int),
    decreases fuel,
{
    if cur == id {
        return Ok(());
    }
    if cur == NO_STREAM || fuel == 0 {
        return Err(CfbError::BadFormat);
    }
    let n = comp.entry_count();
    if cur as usize >= n {
        return Err(CfbError::BadFormat);
    }
    let own = comp.entry_name_units_clone(id as usize);
    let node = comp.entry_name_units_clone(cur as usize);
    let co = name_cmp(&own, &node);
    let cn = name_cmp(new_units, &node);
    if co == 0 {
        return Err(CfbError::BadFormat);
    }
    if cn != co {
        return Err(CfbError::InvalidArgument);
    }
    let links = comp.entry_links(cur as usize);
    if co < 0 {
        order_walk(comp, links.0, id, new_units, fuel - 1)
    } else {
        order_walk(comp, links.1, id, new_units, fuel - 1)
    }
}

/// Demands that every entry of the subtree at `cur` compares to the new
/// name as `want` says (all smaller, or all larger): a match is a conflict,
/// the wrong side breaks the ordering; both are invalid arguments. A walk
/// deeper than the budget is a cycle and malformed.
pub open spec fn spec_subtree_walk(
    dir: Seq<EntryModel>,
    cur: u32,
    new_units: Seq<u16>,
    want: int,
    fuel: int,
) -> Result<(), CfbError>
    decreases fuel,
{
    if cur == NO_STREAM {
        Ok(())
    } else if fuel <= 0 || cur >= dir.len() {
        Err(CfbError::BadFormat)
    } else if name_ord(dir[cur as int].name_units, new_units) != want {
        Err(CfbError::InvalidArgument)
    } else {
        match spec_subtree_walk(dir, dir[cur as int].left, new_units, want, fuel - 1) {
            Ok(()) => spec_subtree_walk(dir, dir[cur as int].right, new_units, want, fuel - 1),
            Err(e) => Err(e),
        }
    }
}

/// Checks a whole subtree against the new name.
pub fn subtree_walk(comp: &CompoundFile, cur: u32, new_units: &Vec<u16>, want: i8, fuel: usize) -> (r:
    Result<(), CfbError>)
    ensures
        r == spec_subtree_walk(comp@.directory, cur, new_units@, want as int, fuel as int),
    decreases fuel,
{
    if cur == NO_STREAM {
        return Ok(());
    }
    if fuel == 0 {
        return Err(CfbError::BadFormat);
    }
    let n = comp.entry_count();
    if cur as usize >= n {
        return Err(CfbError::BadFormat);
    }
    let node = comp.entry_name_units_clone(cur as usize);
    if name_cmp(&node, new_units) != want {
        return Err(CfbError::InvalidArgument);
    }
    let links = comp.entry_links(cur as usize);
    match subtree_walk(comp, links.0, new_units, want, fuel - 1) {
        Ok(()) => subtree_walk(comp, links.1, new_units, want, fuel - 1),
        Err(e) => Err(e),
    }
}

/// The whole guard a rename must pass: no other entry of the tree bears the
/// new name, the path down to the entry orders the new name the same way as
/// the old one, and the entry's own subtrees stay bounded by it.
pub open spec fn spec_rename_guard(
    dir: Seq<EntryModel>,
    troot: u32,
    id: u32,
    new_units: Seq<u16>,
    fuel: int,
) -> Result<(), CfbError> {
    match spec_find(dir, troot, new_units, fuel) {
        Ok(x) => if x != id {
            Err(CfbError::InvalidArgument)
        } else {
            spec_rename_order(dir, troot, id, new_units, fuel)
        },
        Err(fe) => if fe == CfbError::NotFound {
            spec_rename_order(dir, troot, id, new_units, fuel)
        } else {
            Err(fe)
        },
    }
}

/// The order half of the rename guard: the path and both subtrees.
pub open spec fn spec_rename_order(
    dir: Seq<EntryModel>,
    troot: u32,
    id: u32,
    new_units: Seq<u16>,
    fuel: int,
) -> Result<(), CfbError> {
    match spec_order_walk(dir, troot, id, new_units, fuel) {
        Ok(()) => match spec_subtree_walk(dir, dir[id as int].left, new_units, -1, fuel) {
            Ok(()) => spec_subtree_walk(dir, dir[id as int].right, new_units, 1, fuel),
            Err(e) => Err(e),
        },
        Err(e) => Err(e),
    }
}

/// Where a name lies in the sibling tree that starts at entry `cur`:
/// `Ok` with the entry id whose name matches under the container's name
/// ordering, not-found when the search falls off the tree, bad-format when a
/// link leaves the directory or the walk exceeds its step budget, which only
/// a cycle can.
pub open spec fn spec_find(dir: Seq<EntryModel>, cur: u32, units: Seq<u16>, fuel: int) -> Result<
    u32,
    CfbError,
>
    decreases fuel,
{
    if cur == NO_STREAM {
        Err(CfbError::NotFound)
    } else if fuel <= 0 {
        Err(CfbError::BadFormat)
    } else if cur >= dir.len() {
        Err(CfbError::BadFormat)
    } else {
        let c = name_ord(units, dir[cur as int].name_units);
        if c == 0 {
            Ok(cur)
        } else if c < 0 {
            spec_find(dir, dir[cur as int].left, units, fuel - 1)
        } else {
            spec_find(dir, dir[cur as int].right, units, fuel - 1)
        }
    }
}

/// Searches the sibling tree that starts at entry `cur` for a name.
pub fn find_entry(comp: &CompoundFile, cur: u32, units: &Vec<u16>, fuel: usize) -> (r: Result<
    u32,
    CfbError,
>)
    ensures
        r == spec_find(comp@.directory, cur, units@, fuel as int),
    decreases fuel,
{
    if cur == NO_STREAM {
        return Err(CfbError::NotFound);
    }
    if fuel == 0 {
        return Err(CfbError::BadFormat);
    }
    let n = comp.entry_count();
    if cur as usize >= n {
        return Err(CfbError::BadFormat);
    }
    let entry_units = comp.entry_name_units_clone(cur as usize);
    let c = name_cmp(units, &entry_units);
    if c == 0 {
        Ok(cur)
    } else {
        let links = comp.entry_links(cur as usize);
        if c < 0 {
            find_entry(comp, links.0, units, fuel - 1)
        } else {
            find_entry(comp, links.1, units, fuel - 1)
        }
    }
}

} // verus!
