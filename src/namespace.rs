//! A namespace: its functions and tags, compiled by draining a worklist of
//! functions that grows with every hoisted group.

use vstd::prelude::*;
use vstd::string::*;
use std::ops::RangeInclusive;
use crate::command::seq_size;
use crate::compile::{
    CompileOptions, CompilerState, FunctionCompilerState, entry_view, lemma_queue_weight_concat,
    lemma_queue_weight_first, lemma_queue_weight_item, queue_weight, queued,
};
use crate::function::{Function, FunctionView};
use crate::queue::ExtendableQueue;
use crate::tag::{Tag, TagType, TagValue, same_tag_type, tag_directory};
use crate::text::{join2, join3, owned};
use crate::validate::seq_valid;
use crate::vfs::{VFileView, VFolder, file_at};
use crate::model::{CState, seq_c};
use crate::text::joined;

verus! {

broadcast use vstd::std_specs::vec::group_vec_axioms;

/// The directory of functions in a pack format.
pub open spec fn function_directory(pack_format: u8) -> Seq<char> {
    if pack_format < 45 {
        "functions"@
    } else {
        "function"@
    }
}

/// Get the name of the function directory depending on the pack format.
pub fn function_directory_name(pack_format: u8) -> (r: &'static str)
    ensures
        r@ == function_directory(pack_format),
{
    if pack_format < 45 {
        "functions"
    } else {
        "function"
    }
}

/// The file a function at `path` compiles to.
pub open spec fn function_file(pack_format: u8, path: Seq<char>) -> Seq<char> {
    function_directory(pack_format) + "/"@ + path + ".mcfunction"@
}

/// The compile state a queued unit starts in.
pub open spec fn unit_state(path: Seq<char>, ns: Seq<char>) -> CState {
    CState { uid: 0, path, ns, queue: Seq::empty() }
}

/// The lines of a queued unit and the state after compiling it.
pub open spec fn unit_run(u: (Seq<char>, FunctionView), o: CompileOptions, ns: Seq<char>) -> (Seq<Seq<char>>, CState) {
    seq_c(u.1.commands, o, unit_state(u.0, ns))
}

/// The file a queued unit compiles to.
pub open spec fn unit_file(u: (Seq<char>, FunctionView), o: CompileOptions, ns: Seq<char>) -> VFileView {
    VFileView::Text(joined(unit_run(u, o, ns).0))
}

/// The units generated while compiling `done`, in order.
pub open spec fn generated_by(done: Seq<(Seq<char>, FunctionView)>, o: CompileOptions, ns: Seq<char>) -> Seq<(Seq<char>, FunctionView)>
    decreases done.len(),
{
    if done.len() == 0 {
        Seq::empty()
    } else {
        generated_by(done.drop_last(), o, ns) + unit_run(done.last(), o, ns).1.queue
    }
}

/// The file of path `p` holds the compiled text of one of the units of `done` at that path.
pub open spec fn file_of_some(r: VFolder, done: Seq<(Seq<char>, FunctionView)>, p: Seq<char>, o: CompileOptions, ns: Seq<char>) -> bool {
    exists|i: int|
        0 <= i < done.len() && done[i].0 == p && file_at(r, function_file(o.pack_format, p)) == Some(
            #[trigger] unit_file(done[i], o, ns),
        )
}

/// Every compiled unit has a file holding the text of a unit at its path.
pub open spec fn files_hold(r: VFolder, done: Seq<(Seq<char>, FunctionView)>, o: CompileOptions, ns: Seq<char>) -> bool {
    forall|j: int| 0 <= j < done.len() ==> file_of_some(r, done, (#[trigger] done[j]).0, o, ns)
}

/// `done` is the drained worklist: the functions `q0`, then every unit
/// generated while compiling them, each unit compiled once and given its
/// file.
pub open spec fn drained(r: VFolder, done: Seq<(Seq<char>, FunctionView)>, q0: Seq<(Seq<char>, FunctionView)>, o: CompileOptions, ns: Seq<char>) -> bool {
    &&& done == q0 + generated_by(done, o, ns)
    &&& files_hold(r, done, o, ns)
}

proof fn lemma_function_file_injective(pf: u8, p: Seq<char>, q: Seq<char>)
    requires
        function_file(pf, p) == function_file(pf, q),
    ensures
        p == q,
{
    let d = function_directory(pf) + "/"@;
    let e = ".mcfunction"@;
    assert(function_file(pf, p) =~= d + p + e);
    assert(function_file(pf, q) =~= d + q + e);
    assert(p.len() == q.len());
    assert(p =~= (d + p + e).subrange(d.len() as int, (d.len() + p.len()) as int));
    assert(q =~= (d + q + e).subrange(d.len() as int, (d.len() + q.len()) as int));
}

proof fn lemma_function_file_not_tag(pf: u8, p: Seq<char>, t: Seq<char>)
    requires
        t.len() > 0 && t[0] == 't',
    ensures
        function_file(pf, p) != t,
{
    reveal_strlit("functions");
    reveal_strlit("function");
    assert(function_file(pf, p)[0] == 'f');
}

/// Namespace of a datapack
#[derive(Debug, Clone, PartialEq, Eq)]
pub struct Namespace {
    name: String,
    functions: Vec<(String, Function)>,
    tags: Vec<(String, TagType, Tag)>,
}

/// The function of the first entry named `path`.
pub open spec fn entry_at(s: Seq<(String, Function)>, path: Seq<char>) -> Option<FunctionView> {
    let k = entry_index(s, path, 0);
    if 0 <= k < s.len() {
        Some(s[k].1@)
    } else {
        None
    }
}

/// The index of the first entry named `name` at or after `i`, or -1.
pub open spec fn entry_index(s: Seq<(String, Function)>, name: Seq<char>, i: int) -> int
    decreases s.len() - i,
{
    if i < 0 || i >= s.len() {
        -1
    } else if s[i].0@ == name {
        i
    } else {
        entry_index(s, name, i + 1)
    }
}

/// Every function of the namespace is valid in formats `lo..=hi`.
pub open spec fn namespace_valid(ns: Namespace, lo: u8, hi: u8) -> bool {
    forall|k: int|
        0 <= k < ns.function_entries().len() ==> seq_valid((#[trigger] ns.function_entries()[k]).1.commands, lo, hi)
}

/// The index of the first tag named `name` of type `t` at or after `i`, or -1.
pub open spec fn tag_index(s: Seq<(String, TagType, Tag)>, name: Seq<char>, t: TagType, i: int) -> int
    decreases s.len() - i,
{
    if i < 0 || i >= s.len() {
        -1
    } else if s[i].0@ == name && same_tag_type(s[i].1, t) {
        i
    } else {
        tag_index(s, name, t, i + 1)
    }
}

proof fn lemma_same_tag_type_refl(t: TagType)
    ensures
        same_tag_type(t, t),
{
}

proof fn lemma_tag_push_from(a: Seq<(String, TagType, Tag)>, b: Seq<(String, TagType, Tag)>, name: Seq<char>, t: TagType, i: int)
    requires
        0 <= i <= a.len(),
        tag_index(a, name, t, i) == -1,
        b.len() == a.len() + 1,
        b[a.len() as int].0@ == name,
        same_tag_type(b[a.len() as int].1, t),
        forall|j: int| 0 <= j < a.len() ==> #[trigger] b[j] == a[j],
    ensures
        tag_index(b, name, t, i) == a.len(),
    decreases a.len() - i,
{
    if i < a.len() {
        lemma_tag_push_from(a, b, name, t, i + 1);
    }
}

proof fn lemma_tag_index(s: Seq<(String, TagType, Tag)>, name: Seq<char>, t: TagType, i: int)
    requires
        0 <= i,
    ensures
        tag_index(s, name, t, i) == -1 || (i <= tag_index(s, name, t, i) < s.len() && s[tag_index(s, name, t, i)].0@
            == name && same_tag_type(s[tag_index(s, name, t, i)].1, t)),
    decreases s.len() - i,
{
    if i < s.len() && !(s[i].0@ == name && same_tag_type(s[i].1, t)) {
        lemma_tag_index(s, name, t, i + 1);
    }
}

proof fn lemma_tag_keep_from(
    a: Seq<(String, TagType, Tag)>,
    b: Seq<(String, TagType, Tag)>,
    name: Seq<char>,
    t: TagType,
    i: int,
    k: int,
)
    requires
        0 <= i <= k < a.len(),
        tag_index(a, name, t, i) == k,
        b.len() == a.len(),
        b[k].0 == a[k].0,
        b[k].1 == a[k].1,
        forall|j: int| 0 <= j < a.len() && j != k ==> #[trigger] b[j] == a[j],
    ensures
        tag_index(b, name, t, i) == k,
    decreases k - i,
{
    if i < k {
        lemma_tag_keep_from(a, b, name, t, i + 1, k);
    } else {
        lemma_tag_index(a, name, t, k + 1);
    }
}

proof fn lemma_entry_push(a: Seq<(String, Function)>, b: Seq<(String, Function)>, name: Seq<char>)
    requires
        entry_index(a, name, 0) == -1,
        b.len() == a.len() + 1,
        b[a.len() as int].0@ == name,
        forall|j: int| 0 <= j < a.len() ==> #[trigger] b[j] == a[j],
    ensures
        entry_index(b, name, 0) == a.len(),
{
    lemma_entry_push_from(a, b, name, 0);
}

proof fn lemma_entry_push_from(a: Seq<(String, Function)>, b: Seq<(String, Function)>, name: Seq<char>, i: int)
    requires
        0 <= i <= a.len(),
        entry_index(a, name, i) == -1,
        b.len() == a.len() + 1,
        b[a.len() as int].0@ == name,
        forall|j: int| 0 <= j < a.len() ==> #[trigger] b[j] == a[j],
    ensures
        entry_index(b, name, i) == a.len(),
    decreases a.len() - i,
{
    if i < a.len() {
        lemma_entry_push_from(a, b, name, i + 1);
    }
}

/// Replacing the function of the entry at the first index of `name` keeps
/// that index.
proof fn lemma_entry_keep(a: Seq<(String, Function)>, name: Seq<char>, k: int)
    requires
        entry_index(a, name, 0) == k,
        0 <= k < a.len(),
    ensures
        forall|f: Function| #[trigger] entry_index(a.update(k, (a[k].0, f)), name, 0) == k,
{
    assert forall|f: Function| #[trigger] entry_index(a.update(k, (a[k].0, f)), name, 0) == k by {
        lemma_entry_keep_from(a, a.update(k, (a[k].0, f)), name, 0, k);
    }
}

proof fn lemma_entry_keep_from(a: Seq<(String, Function)>, b: Seq<(String, Function)>, name: Seq<char>, i: int, k: int)
    requires
        0 <= i <= k < a.len(),
        entry_index(a, name, i) == k,
        b.len() == a.len(),
        b[k].0 == a[k].0,
        forall|j: int| 0 <= j < a.len() && j != k ==> #[trigger] b[j] == a[j],
    ensures
        entry_index(b, name, i) == k,
    decreases k - i,
{
    if i < k {
        lemma_entry_keep_from(a, b, name, i + 1, k);
    } else {
        lemma_entry_index(a, name, k + 1);
    }
}

proof fn lemma_entry_index(s: Seq<(String, Function)>, name: Seq<char>, i: int)
    requires
        0 <= i,
    ensures
        entry_index(s, name, i) == -1 || (i <= entry_index(s, name, i) < s.len() && s[entry_index(s, name, i)].0@
            == name),
    decreases s.len() - i,
{
    if i < s.len() && s[i].0@ != name {
        lemma_entry_index(s, name, i + 1);
    }
}

/// Entries under other names keep their first index and value when the
/// entry of `name` changes or one of `name` is added at the back.
proof fn lemma_entry_other(a: Seq<(String, Function)>, b: Seq<(String, Function)>, name: Seq<char>, q: Seq<char>, i: int)
    requires
        q != name,
        0 <= i,
        b.len() == a.len() || b.len() == a.len() + 1,
        b.len() == a.len() + 1 ==> b[a.len() as int].0@ == name,
        forall|j: int| 0 <= j < a.len() && a[j].0@ != name ==> #[trigger] b[j] == a[j],
        forall|j: int| 0 <= j < a.len() && a[j].0@ == name ==> #[trigger] b[j].0@ == name,
    ensures
        entry_index(b, q, i) == entry_index(a, q, i),
        entry_index(a, q, i) < a.len(),
        0 <= entry_index(a, q, i) < a.len() ==> b[entry_index(a, q, i)] == a[entry_index(a, q, i)],
    decreases b.len() - i,
{
    lemma_entry_index(a, q, i);
    if i < b.len() {
        lemma_entry_other(a, b, name, q, i + 1);
    }
}

proof fn lemma_entry_absent(s: Seq<(String, Function)>, name: Seq<char>, i: int)
    requires
        0 <= i,
        entry_index(s, name, i) == -1,
    ensures
        forall|j: int| i <= j < s.len() ==> #[trigger] s[j].0@ != name,
    decreases s.len() - i,
{
    if i < s.len() {
        lemma_entry_absent(s, name, i + 1);
    }
}

proof fn lemma_tag_absent(s: Seq<(String, TagType, Tag)>, name: Seq<char>, t: TagType, i: int)
    requires
        0 <= i,
        tag_index(s, name, t, i) == -1,
    ensures
        forall|j: int| i <= j < s.len() ==> !((#[trigger] s[j]).0@ == name && same_tag_type(s[j].1, t)),
    decreases s.len() - i,
{
    if i < s.len() {
        lemma_tag_absent(s, name, t, i + 1);
    }
}

impl Namespace {
    /// No two functions share a path, and no two tags share a name and a type.
    pub closed spec fn wf(&self) -> bool {
        &&& forall|i: int, j: int|
            0 <= i < j < self.functions@.len() ==> (#[trigger] self.functions@[i]).0@ != (#[trigger] self.functions@[j]).0@
        &&& forall|i: int, j: int|
            0 <= i < j < self.tags@.len() ==> !((#[trigger] self.tags@[i]).0@ == (#[trigger] self.tags@[j]).0@
                && same_tag_type(self.tags@[i].1, self.tags@[j].1))
    }

    /// The tag named `name` of type `t`: the first one added.
    pub closed spec fn tag_at(&self, name: Seq<char>, t: TagType) -> Option<(bool, Seq<TagValue>)> {
        let k = tag_index(self.tags@, name, t, 0);
        if 0 <= k < self.tags@.len() {
            Some(self.tags@[k].2@)
        } else {
            None
        }
    }

    /// The name of the namespace.
    pub closed spec fn name_view(&self) -> Seq<char> {
        self.name@
    }

    /// The functions, by path, in the order they were added.
    pub closed spec fn function_entries(&self) -> Seq<(Seq<char>, FunctionView)> {
        queued(self.functions@)
    }

    /// The number of tags.
    pub closed spec fn tag_count(&self) -> nat {
        self.tags@.len()
    }

    /// The function at `path`: the first one added under that path.
    pub closed spec fn function_at(&self, path: Seq<char>) -> Option<FunctionView> {
        entry_at(self.functions@, path)
    }

    /// The file the tag at index `k` compiles to.
    pub closed spec fn tag_file(&self, k: int, pack_format: u8) -> Seq<char> {
        "tags/"@ + tag_directory(self.tags@[k].1, pack_format) + "/"@ + self.tags@[k].0@ + ".json"@
    }

    /// Every function is small enough to compile with a machine-word counter.
    pub open spec fn fits(&self) -> bool {
        forall|i: int|
            0 <= i < self.function_entries().len() ==> seq_size((#[trigger] self.function_entries()[i]).1.commands)
                <= usize::MAX
    }

    /// Create a new namespace.
    pub fn new(name: &str) -> (r: Self)
        ensures
            r.name_view() == name@,
            r.function_entries() == Seq::<(Seq<char>, FunctionView)>::empty(),
            r.tag_count() == 0,
            r.wf(),
    {
        let r = Namespace { name: owned(name), functions: Vec::new(), tags: Vec::new() };
        assert(r.function_entries() =~= Seq::<(Seq<char>, FunctionView)>::empty());
        r
    }

    /// Get the name of the namespace.
    pub fn get_name(&self) -> (r: &str)
        ensures
            r@ == self.name_view(),
    {
        self.name.as_str()
    }

    /// Get the functions of the namespace.
    pub fn get_functions(&self) -> (r: &Vec<(String, Function)>)
        ensures
            queued(r@) == self.function_entries(),
    {
        &self.functions
    }

    /// Get the tags of the namespace.
    pub fn get_tags(&self) -> (r: &Vec<(String, TagType, Tag)>)
        ensures
            r@.len() == self.tag_count(),
    {
        &self.tags
    }

    fn find_function(&self, name: &str) -> (r: Option<usize>)
        ensures
            r matches Some(k) ==> entry_index(self.functions@, name@, 0) == k && k < self.functions@.len(),
            r is None ==> entry_index(self.functions@, name@, 0) == -1,
    {
        let mut i: usize = 0;
        while i < self.functions.len()
            invariant
                i <= self.functions@.len(),
                entry_index(self.functions@, name@, 0) == entry_index(self.functions@, name@, i as int),
            decreases self.functions.len() - i,
        {
            if self.functions[i].0 == owned(name) {
                return Some(i);
            }
            i = i + 1;
        }
        None
    }

    /// Get a function by name.
    pub fn function(&self, name: &str) -> (r: Option<&Function>)
        ensures
            r matches Some(f) ==> self.function_at(name@) == Some(f@),
            r is None ==> self.function_at(name@) is None,
    {
        match self.find_function(name) {
            Some(k) => Some(&self.functions[k].1),
            None => None,
        }
    }

    /// Mutably get a function by name, creating an empty one where there is
    /// none.
    pub fn function_mut(&mut self, name: &str) -> (r: &mut Function)
        ensures
            old(self).function_at(name@) matches Some(f) ==> (*r)@ == f,
            old(self).function_at(name@) is None ==> (*r)@ == (FunctionView {
                commands: Seq::empty(),
                name: name@,
                namespace: old(self).name_view(),
            }),
            final(self).function_at(name@) == Some((*final(r))@),
            final(self).name_view() == old(self).name_view(),
            old(self).wf() ==> final(self).wf(),
            forall|q: Seq<char>| q != name@ ==> #[trigger] final(self).function_at(q) == old(self).function_at(q),
            final(self).function_entries().len() == old(self).function_entries().len() + if old(self).function_at(
                name@,
            ) is None {
                1int
            } else {
                0int
            },
    {
        let k = match self.find_function(name) {
            Some(k) => k,
            None => {
                let f = Function::new(self.name.as_str(), name);
                let ghost before = self.functions@;
                proof {
                    lemma_entry_absent(before, name@, 0);
                }
                self.functions.push((owned(name), f));
                proof {
                    lemma_entry_push(before, self.functions@, name@);
                }
                self.functions.len() - 1
            },
        };
        let ghost mid = self.functions@;
        proof {
            assert forall|q: Seq<char>| q != name@ implies entry_index(mid, q, 0) == entry_index(old(self).functions@, q, 0) && (0
                <= entry_index(mid, q, 0) < old(self).functions@.len() ==> mid[entry_index(mid, q, 0)]
                == old(self).functions@[entry_index(mid, q, 0)]) && entry_index(mid, q, 0) < old(self).functions@.len() by {
                lemma_entry_other(old(self).functions@, mid, name@, q, 0);
            }
            assert forall|q: Seq<char>, f: Function| q != name@ implies #[trigger] entry_at(mid.update(k as int, (mid[k as int].0, f)), q)
                == entry_at(old(self).functions@, q) by {
                lemma_entry_index(mid, name@, 0);
                lemma_entry_other(mid, mid.update(k as int, (mid[k as int].0, f)), name@, q, 0);
                lemma_entry_other(old(self).functions@, mid, name@, q, 0);
            }
        }
        let r = &mut self.functions[k].1;
        proof {
            lemma_entry_keep(mid, name@, k as int);
        }
        r
    }

    fn find_tag(&self, name: &str, tag_type: &TagType) -> (r: Option<usize>)
        ensures
            r matches Some(k) ==> k < self.tags@.len() && tag_index(self.tags@, name@, *tag_type, 0) == k,
            r is None ==> tag_index(self.tags@, name@, *tag_type, 0) == -1,
    {
        let mut i: usize = 0;
        while i < self.tags.len()
            invariant
                i <= self.tags@.len(),
                tag_index(self.tags@, name@, *tag_type, 0) == tag_index(self.tags@, name@, *tag_type, i as int),
            decreases self.tags.len() - i,
        {
            if self.tags[i].0 == owned(name) && self.tags[i].1.same_as(tag_type) {
                return Some(i);
            }
            i = i + 1;
        }
        None
    }

    /// Get a tag by name and type.
    pub fn tag(&self, name: &str, tag_type: TagType) -> (r: Option<&Tag>)
        ensures
            r matches Some(x) ==> self.tag_at(name@, tag_type) == Some(x@),
            r is None ==> self.tag_at(name@, tag_type) is None,
    {
        match self.find_tag(name, &tag_type) {
            Some(k) => Some(&self.tags[k].2),
            None => None,
        }
    }

    /// Mutably get a tag by name and type, creating an empty one that does
    /// not replace where there is none.
    pub fn tag_mut(&mut self, name: &str, tag_type: TagType) -> (r: &mut Tag)
        ensures
            old(self).tag_at(name@, tag_type) matches Some(v) ==> (*r)@ == v,
            old(self).tag_at(name@, tag_type) is None ==> (*r)@ == (false, Seq::<TagValue>::empty()),
            final(self).tag_at(name@, tag_type) == Some((*final(r))@),
            final(self).name_view() == old(self).name_view(),
            old(self).wf() ==> final(self).wf(),
    {
        let ghost t = tag_type;
        let k = match self.find_tag(name, &tag_type) {
            Some(k) => k,
            None => {
                let ghost before = self.tags@;
                proof {
                    lemma_same_tag_type_refl(tag_type);
                    lemma_tag_absent(before, name@, t, 0);
                }
                self.tags.push((owned(name), tag_type, Tag::new(false)));
                proof {
                    lemma_tag_push_from(before, self.tags@, name@, t, 0);
                }
                self.tags.len() - 1
            },
        };
        let ghost mid = self.tags@;
        let r = &mut self.tags[k].2;
        proof {
            assert forall|x: Tag| #[trigger] tag_index(mid.update(k as int, (mid[k as int].0, mid[k as int].1, x)), name@, t, 0) == k by {
                lemma_tag_keep_from(mid, mid.update(k as int, (mid[k as int].0, mid[k as int].1, x)), name@, t, 0, k as int);
            }
        }
        r
    }

    /// Compile the namespace into a folder: each function, and every
    /// function hoisted out of it, then each tag.
    pub fn compile(&self, options: &CompileOptions, state: &CompilerState) -> (r: VFolder)
        requires
            self.fits(),
        ensures
            forall|k: int|
                0 <= k < self.function_entries().len() ==> file_at(
                    r,
                    function_file(options.pack_format, (#[trigger] self.function_entries()[k]).0),
                ) is Some,
            forall|k: int| 0 <= k < self.tag_count() ==> file_at(r, #[trigger] self.tag_file(k, options.pack_format)) is Some,
            exists|done: Seq<(Seq<char>, FunctionView)>| #[trigger] drained(r, done, self.function_entries(), *options, self.name_view()),
    {
        let mut root_folder = VFolder::new();
        let mut initial: Vec<(String, Function)> = Vec::new();
        let mut i: usize = 0;
        while i < self.functions.len()
            invariant
                i <= self.functions@.len(),
                initial@.len() == i,
                forall|k: int| 0 <= k < i ==> #[trigger] entry_view(initial@[k]) == entry_view(self.functions@[k]),
            decreases self.functions.len() - i,
        {
            initial.push((self.functions[i].0.clone(), self.functions[i].1.duplicate()));
            i = i + 1;
        }
        let ghost q0 = queued(initial@);
        assert forall|k: int| 0 <= k < q0.len() implies seq_size((#[trigger] q0[k]).1.commands) <= usize::MAX by {
            assert(q0[k] == entry_view(self.functions@[k]));
            assert(self.function_entries()[k] == entry_view(self.functions@[k]));
        }
        let ghost n = q0.len();
        let ghost fe = self.function_entries();
        assert forall|k: int| 0 <= k < n implies #[trigger] q0[k] == fe[k] by {
            assert(q0[k] == entry_view(initial@[k]));
        }
        let mut functions = ExtendableQueue::from_vec(initial);
        let ghost mut popped: nat = 0;
        let ghost mut done: Seq<(Seq<char>, FunctionView)> = Seq::empty();
        let ghost ns = self.name_view();
        assert(q0 + generated_by(done, *options, ns) =~= done + queued(functions@));
        loop
            invariant
                ns == self.name_view(),
                q0 + generated_by(done, *options, ns) == done + queued(functions@),
                files_hold(root_folder, done, *options, ns),
                n == q0.len(),
                n == fe.len(),
                fe == self.function_entries(),
                forall|k: int| 0 <= k < n ==> #[trigger] q0[k] == fe[k],
                popped <= n ==> queued(functions@).len() >= n - popped,
                popped <= n ==> forall|j: int| 0 <= j < n - popped ==> #[trigger] queued(functions@)[j] == q0[popped + j],
                forall|k: int|
                    0 <= k < n && k < popped ==> file_at(root_folder, function_file(options.pack_format, (#[trigger] q0[k]).0)) is Some,
                forall|k: int|
                    0 <= k < functions@.len() ==> seq_size(
                        (#[trigger] queued(functions@)[k]).1.commands,
                    ) <= usize::MAX,
            ensures
                forall|k: int|
                    0 <= k < n ==> file_at(root_folder, function_file(options.pack_format, (#[trigger] q0[k]).0)) is Some,
                q0 + generated_by(done, *options, ns) == done,
                files_hold(root_folder, done, *options, ns),
            decreases queue_weight(queued(functions@)),
        {
            let ghost before = queued(functions@);
            match functions.next() {
                None => {
                    proof {
                        if popped < n {
                            assert(queued(functions@).len() >= n - popped);
                        }
                        assert(done + queued(functions@) =~= done);
                    }
                    break;
                },
                Some((path, function)) => {
                    proof {
                        assert(before[0] == entry_view((path, function)));
                        if popped < n {
                            assert(before[0] == q0[popped as int]);
                        }
                        lemma_queue_weight_first(before);
                        assert(queued(functions@) =~= before.drop_first());
                    }
                    let mut function_state = FunctionCompilerState::new(path.as_str(), self.name.as_str(), ExtendableQueue::new());
                    assert(function_state.queue() =~= Seq::<(Seq<char>, FunctionView)>::empty());
                    let file = function.compile(options, state, &mut function_state);
                    let file_path = join3(
                        function_directory_name(options.pack_format),
                        "/",
                        join2(path.as_str(), ".mcfunction").as_str(),
                    );
                    assert(file_path@ =~= function_file(options.pack_format, path@));
                    let ghost root0 = root_folder;
                    let ghost u = (path@, function@);
                    assert(u == before[0]);
                    assert(file@ == unit_file(u, *options, ns));
                    root_folder.add_file(file_path.as_str(), file);
                    proof {
                        let done2 = done.push(u);
                        assert forall|j: int| 0 <= j < done2.len() implies file_of_some(root_folder, done2, (#[trigger] done2[j]).0, *options, ns) by {
                            let pj = done2[j].0;
                            if pj == u.0 {
                                assert(done2[done.len() as int] == u);
                                assert(file_at(root_folder, function_file(options.pack_format, pj)) == Some(unit_file(done2[done.len() as int], *options, ns)));
                            } else {
                                assert(done2[j] == done[j]);
                                assert(file_of_some(root0, done, pj, *options, ns));
                                let i = choose|i: int| 0 <= i < done.len() && done[i].0 == pj && file_at(root0, function_file(options.pack_format, pj)) == Some(
                                    #[trigger] unit_file(done[i], *options, ns));
                                if function_file(options.pack_format, pj) == function_file(options.pack_format, path@) {
                                    lemma_function_file_injective(options.pack_format, pj, path@);
                                }
                                assert(done2[i] == done[i]);
                                assert(file_at(root_folder, function_file(options.pack_format, pj)) == Some(unit_file(done2[i], *options, ns)));
                            }
                        }
                    }
                    let generated = function_state.take_functions();
                    let ghost gv = queued(generated@);
                    let ghost mid = queued(functions@);
                    functions.extend(generated);
                    proof {
                        assert(queued(functions@) =~= mid + gv);
                        lemma_queue_weight_concat(mid, gv);
                        assert forall|k: int| 0 <= k < gv.len() implies seq_size((#[trigger] gv[k]).1.commands) <= usize::MAX by {
                            lemma_queue_weight_item(gv, k);
                        }
                        let all = mid + gv;
                        assert forall|k: int| 0 <= k < all.len() implies seq_size((#[trigger] all[k]).1.commands) <= usize::MAX by {
                            if k < mid.len() {
                                assert(all[k] == mid[k]);
                                assert(mid[k] == before[k + 1]);
                            } else {
                                assert(all[k] == gv[k - mid.len()]);
                            }
                        }
                        if popped < n {
                            assert forall|j: int| 0 <= j < n - (popped + 1) implies #[trigger] all[j] == q0[popped + 1 + j] by {
                                assert(all[j] == mid[j]);
                                assert(mid[j] == before[j + 1]);
                                assert(before[j + 1] == q0[popped + (j + 1)]);
                            }
                        }
                        popped = popped + 1;
                        let done2 = done.push(u);
                        assert(done2.drop_last() =~= done);
                        assert(gv == unit_run(u, *options, ns).1.queue);
                        assert(generated_by(done2, *options, ns) == generated_by(done, *options, ns) + gv);
                        assert(before =~= seq![u] + mid);
                        assert(q0 + generated_by(done, *options, ns) == done + before);
                        assert(q0 + generated_by(done2, *options, ns) =~= (q0 + generated_by(done, *options, ns)) + gv);
                        assert((done + before) + gv =~= done2 + (mid + gv));
                        assert(q0 + generated_by(done2, *options, ns) == done2 + (mid + gv));
                        done = done2;
                    }
                },
            }
        }
        let mut j: usize = 0;
        while j < self.tags.len()
            invariant
                j <= self.tags@.len(),
                n == fe.len(),
                fe == self.function_entries(),
                forall|k: int| 0 <= k < n ==> #[trigger] q0[k] == fe[k],
                forall|k: int|
                    0 <= k < n ==> file_at(root_folder, function_file(options.pack_format, (#[trigger] q0[k]).0)) is Some,
                forall|k: int| 0 <= k < j ==> file_at(root_folder, #[trigger] self.tag_file(k, options.pack_format)) is Some,
                ns == self.name_view(),
                q0 + generated_by(done, *options, ns) == done,
                files_hold(root_folder, done, *options, ns),
            decreases self.tags.len() - j,
        {
            let vfile = self.tags[j].2.compile(options, state);
            let file_path = join3(
                "tags/",
                self.tags[j].1.get_directory_name(options.pack_format),
                join3("/", self.tags[j].0.as_str(), ".json").as_str(),
            );
            assert(file_path@ =~= self.tag_file(j as int, options.pack_format));
            let ghost root0 = root_folder;
            root_folder.add_file(file_path.as_str(), vfile);
            proof {
                reveal_strlit("tags/");
                assert(file_path@[0] == 't');
                assert forall|jj: int| 0 <= jj < done.len() implies file_of_some(root_folder, done, (#[trigger] done[jj]).0, *options, ns) by {
                    let pj = done[jj].0;
                    lemma_function_file_not_tag(options.pack_format, pj, file_path@);
                    assert(file_of_some(root0, done, pj, *options, ns));
                    let i = choose|i: int| 0 <= i < done.len() && done[i].0 == pj && file_at(root0, function_file(options.pack_format, pj)) == Some(
                        #[trigger] unit_file(done[i], *options, ns));
                    assert(file_at(root_folder, function_file(options.pack_format, pj)) == Some(unit_file(done[i], *options, ns)));
                }
            }
            j = j + 1;
        }
        assert forall|k: int| 0 <= k < self.function_entries().len() implies file_at(
            root_folder,
            function_file(options.pack_format, (#[trigger] self.function_entries()[k]).0),
        ) is Some by {
            assert(q0[k] == fe[k]);
        }
        assert(q0 =~= fe);
        assert(drained(root_folder, done, self.function_entries(), *options, self.name_view()));
        root_folder
    }

    /// Check whether every function of the namespace is valid with the
    /// given pack formats.
    pub fn validate(&self, pack_formats: &RangeInclusive<u8>) -> (r: bool)
        ensures
            r == namespace_valid(*self, pack_formats@.start, pack_formats@.end),
    {
        let mut i: usize = 0;
        while i < self.functions.len()
            invariant
                i <= self.functions@.len(),
                forall|k: int|
                    0 <= k < i ==> seq_valid(
                        (#[trigger] self.function_entries()[k]).1.commands,
                        pack_formats@.start,
                        pack_formats@.end,
                    ),
            decreases self.functions.len() - i,
        {
            if !self.functions[i].1.validate(pack_formats) {
                assert(self.function_entries()[i as int] == entry_view(self.functions@[i as int]));
                return false;
            }
            assert(self.function_entries()[i as int] == entry_view(self.functions@[i as int]));
            i = i + 1;
        }
        true
    }
}

} // verus!
