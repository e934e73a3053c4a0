//! The compiler as spec functions over views: the lines each command and
//! execute chain compiles to, and the compile state afterwards.

use vstd::prelude::*;
use crate::command::{CommandView, ExecuteView, cmd_size, exe_size, lemma_seq_size_concat, lemma_seq_size_push, opt_size, plain_lines, seq_size};
use crate::compile::CompileOptions;
use crate::condition::{Condition, guard_lines};
use crate::conditional::{combined, flag_set_line, legacy_lines, prefixed, return_lines, then_view};
use crate::digest::md5_hex_of;
use crate::execute::{call_line, hoisted_path, run_lines, step_text};
use crate::function::FunctionView;
use crate::text::{decimal_of, split_lines};

verus! {

/// The compile state of a function: the next id, the function's path and
/// namespace, and the queue of generated functions.
pub struct CState {
    pub uid: nat,
    pub path: Seq<char>,
    pub ns: Seq<char>,
    pub queue: Seq<(Seq<char>, FunctionView)>,
}

/// The state an execute chain is counted in.
pub open spec fn fresh_state() -> CState {
    CState { uid: 0, path: "[INTERNAL]"@, ns: "[INTERNAL]"@, queue: Seq::empty() }
}

/// Each line after `head`, flagged for the prefix.
pub open spec fn runs_after(ls: Seq<Seq<char>>, head: Seq<char>) -> Seq<(bool, Seq<char>)> {
    ls.map_values(|l: Seq<char>| (true, head + l))
}

/// Raw commands of the given texts.
pub open spec fn raws(ts: Seq<Seq<char>>) -> Seq<CommandView> {
    ts.map_values(|t: Seq<char>| CommandView::Raw(t))
}

/// Each guarded line as an `execute` command text.
pub open spec fn exec_texts(items: Seq<(bool, Seq<char>)>) -> Seq<Seq<char>> {
    items.map_values(|p: (bool, Seq<char>)| "execute "@ + p.1)
}

pub open spec fn unbox(o: Option<Box<ExecuteView>>) -> Option<ExecuteView> {
    match o {
        Some(b) => Some(*b),
        None => None,
    }
}

pub open spec fn optv_size(o: Option<ExecuteView>) -> nat {
    match o {
        Some(x) => exe_size(x),
        None => 0,
    }
}

/// The commands an else chain leaves after its guards are flattened.
pub open spec fn tail_of(x: ExecuteView) -> Seq<CommandView>
    decreases x,
{
    match x {
        ExecuteView::If(_, _, e2) => match e2 {
            Some(b) => tail_of(*b),
            None => Seq::empty(),
        },
        ExecuteView::Run(c) => match *c {
            CommandView::Execute(ExecuteView::If(_, _, e2)) => match e2 {
                Some(b) => tail_of(*b),
                None => Seq::empty(),
            },
            other => seq![other],
        },
        ExecuteView::Runs(cs) => cs,
        _ => seq![CommandView::Execute(x)],
    }
}

pub open spec fn flat_tail(o: Option<ExecuteView>) -> Seq<CommandView> {
    match o {
        Some(x) => tail_of(x),
        None => Seq::empty(),
    }
}

/// The flag-setting command added to a hoisted then-branch.
pub open spec fn flag_group(id: Seq<char>, has_else: bool, clauses: Seq<Seq<char>>) -> Seq<CommandView> {
    if has_else && clauses.len() <= 1 {
        seq![CommandView::Raw(flag_set_line(id))]
    } else {
        Seq::empty()
    }
}

/// The success flag id taken in state `s`.
pub open spec fn flag_key(s: CState) -> Seq<char> {
    md5_hex_of(s.path + ":"@ + decimal_of(s.uid))
}

/// The path a group is hoisted to in state `s`.
pub open spec fn unit_path(s: CState) -> Seq<char> {
    hoisted_path(s.path, s.uid)
}

pub proof fn lemma_raws_size(ts: Seq<Seq<char>>)
    ensures
        seq_size(raws(ts)) == 0,
    decreases ts.len(),
{
    if ts.len() > 0 {
        lemma_raws_size(ts.drop_last());
        assert(raws(ts).drop_last() =~= raws(ts.drop_last()));
        assert(raws(ts).last() == CommandView::Raw(ts.last()));
        assert(cmd_size(CommandView::Raw(ts.last())) == 0);
    }
}

pub proof fn lemma_then_view_size(t: ExecuteView)
    ensures
        seq_size(then_view(t)) <= 1 + exe_size(t),
{
    match t {
        ExecuteView::Run(c) => {
            lemma_seq_size_push(Seq::empty(), *c);
            assert(Seq::<CommandView>::empty().push(*c) =~= seq![*c]);
        },
        ExecuteView::Runs(cs) => {},
        _ => {
            lemma_seq_size_push(Seq::empty(), CommandView::Execute(t));
            assert(Seq::<CommandView>::empty().push(CommandView::Execute(t)) =~= seq![CommandView::Execute(t)]);
        },
    }
}

pub proof fn lemma_tail_size(x: ExecuteView)
    ensures
        seq_size(tail_of(x)) <= 1 + exe_size(x),
    decreases x,
{
    match x {
        ExecuteView::If(_, _, e2) => match e2 {
            Some(b) => {
                lemma_tail_size(*b);
                assert(opt_size(e2) == exe_size(*b));
            },
            None => {},
        },
        ExecuteView::Run(c) => match *c {
            CommandView::Execute(ExecuteView::If(cc, tt, e2)) => match e2 {
                Some(b) => {
                    lemma_tail_size(*b);
                    assert(opt_size(e2) == exe_size(*b));
                    assert(cmd_size(*c) == 1 + exe_size(ExecuteView::If(cc, tt, e2)));
                },
                None => {},
            },
            other => {
                lemma_seq_size_push(Seq::empty(), other);
                assert(Seq::<CommandView>::empty().push(other) =~= seq![other]);
            },
        },
        ExecuteView::Runs(cs) => {},
        _ => {
            lemma_seq_size_push(Seq::empty(), CommandView::Execute(x));
            assert(Seq::<CommandView>::empty().push(CommandView::Execute(x)) =~= seq![CommandView::Execute(x)]);
        },
    }
}

pub proof fn lemma_flag_group_size(id: Seq<char>, has_else: bool, clauses: Seq<Seq<char>>, t: ExecuteView)
    ensures
        seq_size(then_view(t) + flag_group(id, has_else, clauses)) <= 1 + exe_size(t),
{
    lemma_then_view_size(t);
    lemma_seq_size_concat(then_view(t), flag_group(id, has_else, clauses));
    if has_else && clauses.len() <= 1 {
        lemma_seq_size_push(Seq::empty(), CommandView::Raw(flag_set_line(id)));
        assert(Seq::<CommandView>::empty().push(CommandView::Raw(flag_set_line(id))) =~= seq![
            CommandView::Raw(flag_set_line(id)),
        ]);
    }
}

pub proof fn lemma_group_after_return_size(ts: Seq<Seq<char>>, el: Option<ExecuteView>)
    ensures
        seq_size(raws(ts) + flat_tail(el)) <= 1 + optv_size(el),
{
    lemma_raws_size(ts);
    lemma_seq_size_concat(raws(ts), flat_tail(el));
    match el {
        Some(x) => lemma_tail_size(x),
        None => {},
    }
}

/// The lines a command compiles to, and the state afterwards.
pub open spec fn cmd_c(c: CommandView, o: CompileOptions, s: CState) -> (Seq<Seq<char>>, CState)
    decreases cmd_size(c), 5nat, 0nat,
{
    match c {
        CommandView::Execute(e) => root_c(e, o, s),
        CommandView::Group(cs) => group_c(cs, o, s),
        _ => (plain_lines(c, o.debug), s),
    }
}

/// The lines of commands compiled one after another.
pub open spec fn seq_c(cs: Seq<CommandView>, o: CompileOptions, s: CState) -> (Seq<Seq<char>>, CState)
    decreases seq_size(cs), 6nat, cs.len(),
{
    if cs.len() == 0 {
        (Seq::empty(), s)
    } else {
        let (a, s1) = seq_c(cs.drop_last(), o, s);
        let (b, s2) = cmd_c(cs.last(), o, s1);
        (a + b, s2)
    }
}

/// The line count of the commands of a group, for the hoisting decision.
pub open spec fn group_total(cs: Seq<CommandView>, o: CompileOptions) -> nat
    decreases seq_size(cs), 3nat, cs.len(),
{
    if cs.len() == 0 {
        0
    } else {
        group_total(cs.drop_last(), o) + cmd_count(cs.last(), o)
    }
}

/// The line count of a command: a comment counts none, a group one.
pub open spec fn cmd_count(c: CommandView, o: CompileOptions) -> nat
    decreases cmd_size(c), 2nat, 0nat,
{
    match c {
        CommandView::Comment(_) => 0,
        CommandView::Debug(_) => if o.debug {
            1
        } else {
            0
        },
        CommandView::Raw(t) => split_lines(t).len(),
        CommandView::Group(_) => 1,
        CommandView::Execute(e) => exe_count(e, o),
    }
}

/// The number of lines an execute chain compiles to on its own.
pub open spec fn exe_count(e: ExecuteView, o: CompileOptions) -> nat
    decreases exe_size(e), 4nat, 0nat,
{
    exe_c(e, Seq::empty(), false, o, fresh_state()).0.len()
}

/// A group: hoisted into a new function when it counts more than one line,
/// else its commands in place.
pub open spec fn group_c(cs: Seq<CommandView>, o: CompileOptions, s: CState) -> (Seq<Seq<char>>, CState)
    decreases 1 + seq_size(cs), 4nat, 0nat,
{
    if group_total(cs, o) > 1 {
        let p = unit_path(s);
        (
            seq![call_line(s.ns, p)],
            CState { uid: s.uid + 1, queue: s.queue.push((p, FunctionView { commands: cs, name: p, namespace: s.ns })), ..s },
        )
    } else {
        seq_c(cs, o, s)
    }
}

/// An execute chain at the root: a bare `Run` is its command's lines, any
/// other chain is compiled after `execute `.
pub open spec fn root_c(e: ExecuteView, o: CompileOptions, s: CState) -> (Seq<Seq<char>>, CState)
    decreases 1 + exe_size(e), 4nat, 0nat,
{
    match e {
        ExecuteView::Run(c) => cmd_c(*c, o, s),
        _ => {
            let (fl, s1) = exe_c(e, "execute "@, false, o, s);
            (fl.map_values(|p: (bool, Seq<char>)| p.1), s1)
        },
    }
}

/// An execute chain after `prefix`, each line flagged where it carries the
/// prefix; `grouped` says a summon step forces grouping.
pub open spec fn exe_c(e: ExecuteView, prefix: Seq<char>, grouped: bool, o: CompileOptions, s: CState) -> (Seq<(bool, Seq<char>)>, CState)
    decreases exe_size(e), 3nat, 0nat,
    via exe_c_decreases
{
    match e {
        ExecuteView::Step(name, arg, n) => exe_c(*n, prefix + step_text(name, arg), grouped || name == "summon"@, o, s),
        ExecuteView::If(c, t, el) => if_c(c, *t, unbox(el), prefix, o, s),
        ExecuteView::Run(c) => match *c {
            CommandView::Execute(x) => exe_c(x, prefix, grouped, o, s),
            other => {
                let (ls, s1) = cmd_c(other, o, s);
                (run_lines(ls, prefix), s1)
            },
        },
        ExecuteView::Runs(cs) => {
            let (ls, s1) = if grouped {
                group_c(cs, o, s)
            } else {
                seq_c(cs, o, s)
            };
            (run_lines(ls, prefix), s1)
        },
    }
}

#[via_fn]
proof fn exe_c_decreases(e: ExecuteView, prefix: Seq<char>, grouped: bool, o: CompileOptions, s: CState) {
    match e {
        ExecuteView::If(c, t, el) => {
            assert(optv_size(unbox(el)) == opt_size(el));
        },
        ExecuteView::Run(c) => match *c {
            CommandView::Execute(x) => {
                assert(cmd_size(*c) == 1 + exe_size(x));
            },
            _ => {},
        },
        _ => {},
    }
}

/// A guard, by the strategy of the target format.
pub open spec fn if_c(c: Condition, t: ExecuteView, el: Option<ExecuteView>, prefix: Seq<char>, o: CompileOptions, s: CState) -> (Seq<(bool, Seq<char>)>, CState)
    decreases 4 + exe_size(t) + optv_size(el), 2nat, 0nat,
{
    if o.pack_format < 20 {
        pre20_c(c, t, el, prefix, o, s)
    } else {
        since20_c(c, t, el, prefix, o, s)
    }
}

/// The legacy lowering: a success flag in storage.
pub open spec fn pre20_c(c: Condition, t: ExecuteView, el: Option<ExecuteView>, prefix: Seq<char>, o: CompileOptions, s: CState) -> (Seq<(bool, Seq<char>)>, CState)
    decreases 4 + exe_size(t) + optv_size(el), 1nat, 0nat,
    via pre20_c_decreases
{
    let clauses = guard_lines(c);
    let grouping = el is Some || exe_count(t, o) > 1;
    let uses_flag = el is Some || clauses.len() > 1;
    let id = if grouping || uses_flag {
        flag_key(s)
    } else {
        Seq::empty()
    };
    let s1 = if grouping || uses_flag {
        CState { uid: s.uid + 1, ..s }
    } else {
        s
    };
    let (tl, s2) = if grouping {
        let (g, s2) = group_c(then_view(t) + flag_group(id, el is Some, clauses), o, s1);
        (runs_after(g, "run "@), s2)
    } else {
        exe_c(t, Seq::empty(), false, o, s1)
    };
    match el {
        Some(x) => {
            let (e, s3) = exe_c(x, Seq::empty(), false, o, s2);
            (legacy_lines(clauses, tl, Some(e), id, prefix), s3)
        },
        None => (legacy_lines(clauses, tl, None, id, prefix), s2),
    }
}

#[via_fn]
proof fn pre20_c_decreases(c: Condition, t: ExecuteView, el: Option<ExecuteView>, prefix: Seq<char>, o: CompileOptions, s: CState) {
    lemma_flag_group_size(flag_key(s), el is Some, guard_lines(c), t);
    lemma_flag_group_size(Seq::empty(), el is Some, guard_lines(c), t);
}

/// The modern lowering: early returns from a generated function.
pub open spec fn since20_c(c: Condition, t: ExecuteView, el: Option<ExecuteView>, prefix: Seq<char>, o: CompileOptions, s: CState) -> (Seq<(bool, Seq<char>)>, CState)
    decreases 4 + exe_size(t) + optv_size(el), 1nat, 0nat,
    via since20_c_decreases
{
    let clauses = guard_lines(c);
    if el is Some || clauses.len() > 1 {
        let (ts, s1) = hrg_c(clauses, t, el, o, s);
        let (g, s2) = group_c(raws(ts) + flat_tail(el), o, s1);
        (runs_after(g, prefix + "run "@), s2)
    } else if exe_count(t, o) > 1 {
        let (g, s1) = group_c(then_view(t), o, s);
        (prefixed(combined(clauses, runs_after(g, "run "@)), prefix), s1)
    } else {
        let (tl, s1) = exe_c(t, Seq::empty(), false, o, s);
        (prefixed(combined(clauses, tl), prefix), s1)
    }
}

#[via_fn]
proof fn since20_c_decreases(c: Condition, t: ExecuteView, el: Option<ExecuteView>, prefix: Seq<char>, o: CompileOptions, s: CState) {
    lemma_then_view_size(t);
    assert forall|ts: Seq<Seq<char>>| #[trigger] seq_size(raws(ts) + flat_tail(el)) <= 1 + optv_size(el) by {
        lemma_group_after_return_size(ts, el);
    }
}

/// The early-return texts of a guard: each clause with each grouped
/// then-line, then those of the else-if chain.
pub open spec fn hrg_c(clauses: Seq<Seq<char>>, t: ExecuteView, el: Option<ExecuteView>, o: CompileOptions, s: CState) -> (Seq<Seq<char>>, CState)
    decreases 4 + exe_size(t) + optv_size(el), 0nat, 0nat,
    via hrg_c_decreases
{
    let (g, s1) = group_c(then_view(t), o, s);
    let head = exec_texts(combined(clauses, return_lines(g)));
    match el {
        Some(x) => {
            let (more, s2) = else_c(x, o, s1);
            (head + more, s2)
        },
        None => (head, s1),
    }
}

#[via_fn]
proof fn hrg_c_decreases(clauses: Seq<Seq<char>>, t: ExecuteView, el: Option<ExecuteView>, o: CompileOptions, s: CState) {
    lemma_then_view_size(t);
}

/// The early-return texts an else branch adds where it is a further guard.
pub open spec fn else_c(x: ExecuteView, o: CompileOptions, s: CState) -> (Seq<Seq<char>>, CState)
    decreases exe_size(x), 1nat, 0nat,
    via else_c_decreases
{
    match x {
        ExecuteView::If(c, t, e2) => hrg_c(guard_lines(c), *t, unbox(e2), o, s),
        ExecuteView::Run(b) => match *b {
            CommandView::Execute(ExecuteView::If(c, t, e2)) => hrg_c(guard_lines(c), *t, unbox(e2), o, s),
            _ => (Seq::empty(), s),
        },
        _ => (Seq::empty(), s),
    }
}

#[via_fn]
proof fn else_c_decreases(x: ExecuteView, o: CompileOptions, s: CState) {
    match x {
        ExecuteView::If(c, t, e2) => {
            assert(optv_size(unbox(e2)) == opt_size(e2));
        },
        ExecuteView::Run(b) => match *b {
            CommandView::Execute(ExecuteView::If(c, t, e2)) => {
                assert(optv_size(unbox(e2)) == opt_size(e2));
                assert(cmd_size(*b) == 1 + exe_size(ExecuteView::If(c, t, e2)));
            },
            _ => {},
        },
        _ => {},
    }
}

} // verus!
