//! Options and per-function state of a compilation.

use vstd::prelude::*;
use crate::command::seq_size;
use crate::function::{Function, FunctionView};
use crate::model::CState;
use crate::queue::ExtendableQueue;
use crate::text::owned;

verus! {

/// The newest pack format this library knows.
pub const LATEST_FORMAT: u8 = 48;

/// Compile options for the compiler.
#[derive(Debug, Clone, Copy)]
pub struct CompileOptions {
    /// The pack format of the target datapack.
    pub pack_format: u8,
    /// Whether to compile in debug mode.
    pub debug: bool,
}

impl Default for CompileOptions {
    fn default() -> (r: Self)
        ensures
            r.pack_format == LATEST_FORMAT,
            r.debug,
    {
        CompileOptions { pack_format: LATEST_FORMAT, debug: true }
    }
}

impl CompileOptions {
    /// Set whether to compile in debug mode.
    pub fn with_debug(self, debug: bool) -> (r: Self)
        ensures
            r.debug == debug,
            r.pack_format == self.pack_format,
    {
        CompileOptions { debug, ..self }
    }

    /// Set the pack format to compile for.
    pub fn with_pack_format(self, pack_format: u8) -> (r: Self)
        ensures
            r.debug == self.debug,
            r.pack_format == pack_format,
    {
        CompileOptions { pack_format, ..self }
    }
}

/// State of the compiler that can change during compilation.
#[derive(Debug, Clone, Copy, Default)]
pub struct CompilerState {}

/// A queued unit: its path and the function to compile there.
pub open spec fn entry_view(e: (String, Function)) -> (Seq<char>, FunctionView) {
    (e.0@, e.1@)
}

/// The views of queued units.
pub open spec fn queued(q: Seq<(String, Function)>) -> Seq<(Seq<char>, FunctionView)> {
    q.map_values(|e: (String, Function)| entry_view(e))
}

/// State of the compiler for each function that can change during compilation.
#[derive(Debug)]
pub struct FunctionCompilerState {
    uid_counter: usize,
    path: String,
    namespace: String,
    functions: ExtendableQueue<(String, Function)>,
}

impl Default for FunctionCompilerState {
    fn default() -> (r: Self)
        ensures
            r.uid() == 0,
            r.path_view() == Seq::<char>::empty(),
            r.namespace_view() == Seq::<char>::empty(),
            r.queue() == Seq::<(Seq<char>, FunctionView)>::empty(),
    {
        let r = FunctionCompilerState {
            uid_counter: 0,
            path: String::new(),
            namespace: String::new(),
            functions: ExtendableQueue::new(),
        };
        assert(r.queue() =~= Seq::<(Seq<char>, FunctionView)>::empty());
        r
    }
}

/// The total size of the queued functions, each counting one more than
/// the size of its commands.
pub open spec fn queue_weight(q: Seq<(Seq<char>, FunctionView)>) -> nat
    decreases q.len(),
{
    if q.len() == 0 {
        0
    } else {
        queue_weight(q.drop_last()) + seq_size(q.last().1.commands) + 1
    }
}

pub proof fn lemma_queue_weight_push(q: Seq<(Seq<char>, FunctionView)>, e: (Seq<char>, FunctionView))
    ensures
        queue_weight(q.push(e)) == queue_weight(q) + seq_size(e.1.commands) + 1,
{
    assert(q.push(e).drop_last() =~= q);
}

pub proof fn lemma_queue_weight_concat(q: Seq<(Seq<char>, FunctionView)>, r: Seq<(Seq<char>, FunctionView)>)
    ensures
        queue_weight(q + r) == queue_weight(q) + queue_weight(r),
    decreases r.len(),
{
    if r.len() == 0 {
        assert(q + r =~= q);
    } else {
        lemma_queue_weight_concat(q, r.drop_last());
        assert((q + r).drop_last() =~= q + r.drop_last());
    }
}

pub proof fn lemma_queue_weight_first(q: Seq<(Seq<char>, FunctionView)>)
    requires
        q.len() > 0,
    ensures
        queue_weight(q) == seq_size(q[0].1.commands) + 1 + queue_weight(q.drop_first()),
{
    lemma_queue_weight_concat(seq![q[0]], q.drop_first());
    assert(seq![q[0]] + q.drop_first() =~= q);
    lemma_queue_weight_push(Seq::empty(), q[0]);
    assert(Seq::<(Seq<char>, FunctionView)>::empty().push(q[0]) =~= seq![q[0]]);
}

pub proof fn lemma_queue_weight_item(q: Seq<(Seq<char>, FunctionView)>, i: int)
    requires
        0 <= i < q.len(),
    ensures
        seq_size(q[i].1.commands) < queue_weight(q),
    decreases q.len(),
{
    if i < q.len() - 1 {
        lemma_queue_weight_item(q.drop_last(), i);
    }
}

/// `b` is `a` after some compilation work that took at most `bound` ids:
/// same path and namespace, the counter not decreased, and the queue only
/// extended at its back.
pub open spec fn advances(a: FunctionCompilerState, b: FunctionCompilerState, bound: nat) -> bool {
    &&& b.path_view() == a.path_view()
    &&& b.namespace_view() == a.namespace_view()
    &&& a.uid() <= b.uid() <= a.uid() + bound
    &&& queue_weight(b.queue()) <= queue_weight(a.queue()) + bound
    &&& a.queue().len() <= b.queue().len()
    &&& forall|i: int| 0 <= i < a.queue().len() ==> #[trigger] b.queue()[i] == a.queue()[i]
}

impl FunctionCompilerState {
    /// The state as a value of the compiler model.
    pub open spec fn model(&self) -> CState {
        CState { uid: self.uid(), path: self.path_view(), ns: self.namespace_view(), queue: self.queue() }
    }

    /// The counter is a machine word.
    pub proof fn lemma_uid_bound(&self)
        ensures
            self.uid() <= usize::MAX,
    {
    }

    /// The next id that `request_uid` hands out.
    pub closed spec fn uid(&self) -> nat {
        self.uid_counter as nat
    }

    /// The path of the function being compiled.
    pub closed spec fn path_view(&self) -> Seq<char> {
        self.path@
    }

    /// The namespace of the function being compiled.
    pub closed spec fn namespace_view(&self) -> Seq<char> {
        self.namespace@
    }

    /// The functions queued for generation, front first.
    pub closed spec fn queue(&self) -> Seq<(Seq<char>, FunctionView)> {
        queued(self.functions@)
    }

    /// Create a new function compiler state.
    pub fn new(path: &str, namespace: &str, functions: ExtendableQueue<(String, Function)>) -> (r: Self)
        ensures
            r.uid() == 0,
            r.path_view() == path@,
            r.namespace_view() == namespace@,
            r.queue() == queued(functions@),
    {
        FunctionCompilerState { uid_counter: 0, path: owned(path), namespace: owned(namespace), functions }
    }

    /// Path of the current function.
    pub fn path(&self) -> (r: &str)
        ensures
            r@ == self.path_view(),
    {
        self.path.as_str()
    }

    /// Namespace of the current function.
    pub fn namespace(&self) -> (r: &str)
        ensures
            r@ == self.namespace_view(),
    {
        self.namespace.as_str()
    }

    /// Add a function to the queue.
    pub fn add_function(&mut self, name: &str, function: Function)
        ensures
            final(self).queue() == old(self).queue().push((name@, function@)),
            final(self).uid() == old(self).uid(),
            final(self).path_view() == old(self).path_view(),
            final(self).namespace_view() == old(self).namespace_view(),
    {
        let entry = (owned(name), function);
        self.functions.push(entry);
        assert(self.queue() =~= old(self).queue().push((name@, function@)));
    }

    /// The next unique id; each call returns one more than the call before.
    pub fn request_uid(&mut self) -> (r: usize)
        requires
            old(self).uid() < usize::MAX,
        ensures
            r == old(self).uid(),
            final(self).uid() == old(self).uid() + 1,
            final(self).queue() == old(self).queue(),
            final(self).path_view() == old(self).path_view(),
            final(self).namespace_view() == old(self).namespace_view(),
    {
        let uid = self.uid_counter;
        self.uid_counter = uid + 1;
        uid
    }

    /// The queued functions, front first, leaving the queue empty.
    pub fn take_functions(&mut self) -> (r: Vec<(String, Function)>)
        ensures
            queued(r@) == old(self).queue(),
            final(self).queue() == Seq::<(Seq<char>, FunctionView)>::empty(),
            final(self).uid() == old(self).uid(),
            final(self).path_view() == old(self).path_view(),
            final(self).namespace_view() == old(self).namespace_view(),
    {
        let r = self.functions.take_all();
        assert(self.queue() =~= Seq::<(Seq<char>, FunctionView)>::empty());
        r
    }
}

} // verus!
