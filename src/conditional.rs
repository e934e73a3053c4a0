//! Lowering of guarded branches: the legacy strategy with a success flag in
//! storage, and the modern one with early returns from a generated function.

use vstd::prelude::*;
use crate::command::{lemma_if_size, lemma_run_execute_size, opt_box_size, opt_ref_size, Command, CommandView, Execute, ExecuteView, all_plain, cmd_size, command_view, commands_view, copy_commands, exe_size, is_plain, known_count, known_total, lemma_commands_view, lemma_commands_view_concat, lemma_commands_view_push, lemma_seq_size_concat, lemma_seq_size_push, lemma_seq_size_take, no_execute, plain_lines, plain_seq_lines, seq_size, DEBUG_CLOSE, DEBUG_OPEN};
use crate::compile::{CompileOptions, CompilerState, FunctionCompilerState, advances, queue_weight};
use crate::condition::{Condition, guard_lines};
use crate::digest::{md5_hex, md5_hex_of};
use crate::function::FunctionView;
use crate::model::{CState, flag_group, flag_key, else_c, exec_texts, flat_tail, hrg_c, if_c, pre20_c, raws, runs_after, since20_c, tail_of, unbox};
use crate::execute::{cleanup_line, lines_ok, passthrough, unflagged_ok, call_line, compile_group, flagged, hoisted_path, hoisted_unit, stateless, stateless_lines, strs};
use crate::text::{decimal, decimal_of, join2, join3, lemma_split_lines_nonempty, owned, starts_with};

verus! {

broadcast use vstd::std_specs::vec::group_vec_axioms;

/// A condition put in front of a line that takes the prefix.
pub open spec fn join_line(cond: Seq<char>, p: (bool, Seq<char>)) -> (bool, Seq<char>) {
    if p.0 {
        (true, cond + " "@ + p.1)
    } else {
        p
    }
}

/// Every condition joined with every line, condition-major.
pub open spec fn combined(conds: Seq<Seq<char>>, cmds: Seq<(bool, Seq<char>)>) -> Seq<(bool, Seq<char>)>
    decreases conds.len(),
{
    if conds.len() == 0 {
        Seq::empty()
    } else {
        combined(conds.drop_last(), cmds) + cmds.map_values(|p: (bool, Seq<char>)| join_line(conds.last(), p))
    }
}

/// Joining `n` conditions with `m` lines gives `n * m` lines; the line at
/// `i * m + j` is condition `i` joined with line `j`.
pub proof fn lemma_combined(conds: Seq<Seq<char>>, cmds: Seq<(bool, Seq<char>)>)
    ensures
        combined(conds, cmds).len() == conds.len() * cmds.len(),
        forall|i: int, j: int|
            0 <= i < conds.len() && 0 <= j < cmds.len() ==> #[trigger] combined(conds, cmds)[i * cmds.len() + j]
                == join_line(conds[i], cmds[j]),
    decreases conds.len(),
{
    if conds.len() > 0 {
        let front = conds.drop_last();
        lemma_combined(front, cmds);
        let m = cmds.len();
        assert(conds.len() * m == front.len() * m + m) by (nonlinear_arith)
            requires conds.len() == front.len() + 1;
        assert forall|i: int, j: int| 0 <= i < conds.len() && 0 <= j < m implies #[trigger] combined(conds, cmds)[i * m + j]
            == join_line(conds[i], cmds[j]) by {
            if i < front.len() {
                assert(i * m + j < front.len() * m) by (nonlinear_arith)
                    requires i < front.len(), 0 <= j < m;
                assert(front[i] == conds[i]);
            } else {
                assert(i * m == front.len() * m);
            }
        }
    }
}

/// Combine each condition with each compiled line; lines that do not take
/// the prefix stay as they are.
pub fn combine_conditions_commands(conditions: &Vec<String>, commands: &Vec<(bool, String)>) -> (r: Vec<(bool, String)>)
    ensures
        flagged(r@) == combined(strs(conditions@), flagged(commands@)),
{
    let mut out: Vec<(bool, String)> = Vec::new();
    let mut i: usize = 0;
    while i < conditions.len()
        invariant
            i <= conditions@.len(),
            flagged(out@) == combined(strs(conditions@.take(i as int)), flagged(commands@)),
        decreases conditions.len() - i,
    {
        let ghost base = flagged(out@);
        let mut j: usize = 0;
        while j < commands.len()
            invariant
                i < conditions@.len(),
                j <= commands@.len(),
                flagged(out@) == base + flagged(commands@).take(j as int).map_values(
                    |p: (bool, Seq<char>)| join_line(conditions@[i as int]@, p),
                ),
            decreases commands.len() - j,
        {
            let item: (bool, String) = if commands[j].0 {
                (true, join3(conditions[i].as_str(), " ", commands[j].1.as_str()))
            } else {
                (false, commands[j].1.clone())
            };
            proof {
                lemma_flagged_push(out@, item);
                lemma_map_take(flagged(commands@), j as int, |p: (bool, Seq<char>)| join_line(conditions@[i as int]@, p));
                assert(flagged(commands@)[j as int] == (commands@[j as int].0, commands@[j as int].1@));
            }
            out.push(item);
            j = j + 1;
        }
        proof {
            assert(flagged(commands@).take(j as int) =~= flagged(commands@));
            assert(strs(conditions@.take(i + 1)).drop_last() =~= strs(conditions@.take(i as int)));
            assert(strs(conditions@.take(i + 1)).last() == conditions@[i as int]@);
        }
        i = i + 1;
    }
    assert(conditions@.take(i as int) =~= conditions@);
    out
}

/// Each line flagged for the prefix, after `head`.
fn prepend_all(lines: Vec<String>, head: &str) -> (r: Vec<(bool, String)>)
    ensures
        flagged(r@) == strs(lines@).map_values(|s: Seq<char>| (true, head@ + s)),
{
    let mut out: Vec<(bool, String)> = Vec::new();
    let mut i: usize = 0;
    while i < lines.len()
        invariant
            i <= lines@.len(),
            flagged(out@) == strs(lines@).take(i as int).map_values(|s: Seq<char>| (true, head@ + s)),
        decreases lines.len() - i,
    {
        let item = (true, join2(head, lines[i].as_str()));
        proof {
            lemma_flagged_push(out@, item);
            lemma_map_take(strs(lines@), i as int, |s: Seq<char>| (true, head@ + s));
        }
        out.push(item);
        i = i + 1;
    }
    assert(strs(lines@).take(i as int) =~= strs(lines@));
    out
}

/// The prefix put before each line flagged for it.
fn apply_prefix(items: Vec<(bool, String)>, prefix: &str) -> (r: Vec<(bool, String)>)
    ensures
        flagged(r@) == prefixed(flagged(items@), prefix@),
{
    let mut out: Vec<(bool, String)> = Vec::new();
    let mut i: usize = 0;
    while i < items.len()
        invariant
            i <= items@.len(),
            flagged(out@) == flagged(items@).take(i as int).map_values(
                |p: (bool, Seq<char>)| if p.0 { (true, prefix@ + p.1) } else { p },
            ),
        decreases items.len() - i,
    {
        let item: (bool, String) = if items[i].0 {
            (true, join2(prefix, items[i].1.as_str()))
        } else {
            (false, items[i].1.clone())
        };
        proof {
            lemma_flagged_push(out@, item);
            lemma_map_take(flagged(items@), i as int, |p: (bool, Seq<char>)| if p.0 { (true, prefix@ + p.1) } else { p });
            assert(flagged(items@)[i as int] == (items@[i as int].0, items@[i as int].1@));
        }
        out.push(item);
        i = i + 1;
    }
    assert(flagged(items@).take(i as int) =~= flagged(items@));
    out
}

proof fn lemma_map_take<A, B>(s: Seq<A>, j: int, f: spec_fn(A) -> B)
    requires
        0 <= j < s.len(),
    ensures
        s.take(j + 1).map_values(f) == s.take(j).map_values(f).push(f(s[j])),
{
    assert(s.take(j + 1).map_values(f) =~= s.take(j).map_values(f).push(f(s[j])));
}

proof fn lemma_flagged_push(v: Seq<(bool, String)>, x: (bool, String))
    ensures
        flagged(v.push(x)) == flagged(v).push((x.0, x.1@)),
{
    assert(flagged(v.push(x)) =~= flagged(v).push((x.0, x.1@)));
}

proof fn lemma_single_size(c: CommandView)
    ensures
        seq_size(seq![c]) == cmd_size(c),
{
    lemma_seq_size_push(Seq::empty(), c);
    assert(Seq::<CommandView>::empty().push(c) =~= seq![c]);
}

proof fn lemma_single_view(c: Command)
    ensures
        commands_view(seq![c]) == seq![command_view(c)],
{
    lemma_commands_view_push(Seq::empty(), c);
    assert(Seq::<Command>::empty().push(c) =~= seq![c]);
    assert(Seq::<CommandView>::empty().push(command_view(c)) =~= seq![command_view(c)]);
}

/// The commands of a branch, for grouping, as views.
pub open spec fn then_view(e: ExecuteView) -> Seq<CommandView> {
    match e {
        ExecuteView::Run(c) => seq![*c],
        ExecuteView::Runs(cs) => cs,
        _ => seq![CommandView::Execute(e)],
    }
}

pub proof fn lemma_known_total_le_lines(s: Seq<CommandView>, debug: bool)
    requires
        all_plain(s),
    ensures
        known_total(s, debug) <= plain_seq_lines(s, debug).len(),
    decreases s.len(),
{
    if s.len() > 0 {
        assert(all_plain(s.drop_last()));
        lemma_known_total_le_lines(s.drop_last(), debug);
        assert(is_plain(s[s.len() - 1]));
    }
}

/// The commands of a branch, for grouping: the command of a `Run`, the
/// commands of a `Runs`, or else the chain itself as one command.
pub fn then_commands(then: &Execute) -> (r: Vec<Command>)
    ensures
        seq_size(commands_view(r@)) <= 1 + exe_size(then@),
        then@ is Run ==> commands_view(r@) == seq![*then@->Run_0],
        then@ is Runs ==> commands_view(r@) == then@->Runs_0,
        !(then@ is Run) && !(then@ is Runs) ==> commands_view(r@) == seq![CommandView::Execute(then@)],
        commands_view(r@) == then_view(then@),
{
    match then {
        Execute::Run(cmd) => {
            let c = cmd.duplicate();
            single(c)
        },
        Execute::Runs(cmds) => copy_commands(cmds),
        ex => {
            let c = Command::Execute(ex.duplicate());
            single(c)
        },
    }
}

fn single(c: Command) -> (r: Vec<Command>)
    ensures
        commands_view(r@) == seq![c@],
        seq_size(commands_view(r@)) == cmd_size(c@),
{
    let mut v: Vec<Command> = Vec::new();
    v.push(c);
    proof {
        assert(v@ =~= seq![c]);
        lemma_single_view(c);
        lemma_single_size(c@);
    }
    v
}

fn flag_storage(head: &str, success_uid: &str, tail: &str) -> (r: String)
    ensures
        r@ == head@ + success_uid@ + tail@,
{
    join3(head, success_uid, tail)
}

/// Compile an if condition; the dialect of pack formats from 20 on returns
/// early from a generated function, the earlier one keeps a success flag.
pub fn compile_if_cond(
    cond: &Condition,
    then: &Execute,
    el: Option<&Execute>,
    prefix: &str,
    options: &CompileOptions,
    global_state: &CompilerState,
    function_state: &mut FunctionCompilerState,
) -> (r: Vec<(bool, String)>)
    requires
        old(function_state).uid() + 4 + exe_size(then@) + opt_ref_size(el) <= usize::MAX,
    ensures
        advances(*old(function_state), *final(function_state), 4 + exe_size(then@) + opt_ref_size(el)),
        options.pack_format < 20 ==> exists|t: Seq<(bool, Seq<char>)>, e: Option<Seq<(bool, Seq<char>)>>, id: Seq<char>|
            flagged(r@) == #[trigger] legacy_lines(guard_lines(*cond), t, e, id, prefix@) && (e is Some <==> el is Some)
                && ((el is Some || guard_lines(*cond).len() > 1) ==> id == md5_hex_of(
                old(function_state).path_view() + ":"@ + decimal_of(old(function_state).uid()),
            )) && (el matches Some(x) ==> (stateless(x@, false, options.debug) ==> e == Some(
                stateless_lines(x@, Seq::empty(), false, options.debug),
            ))),
        options.pack_format >= 20 ==> modern_lowering(
            *old(function_state),
            *final(function_state),
            *cond,
            then@,
            el is Some,
            prefix@,
            options.debug,
            r@,
        ),
        (el is None && guard_lines(*cond).len() == 1 && stateless(then@, false, options.debug) && stateless_lines(
            then@,
            Seq::empty(),
            false,
            options.debug,
        ).len() <= 1) ==> flagged(r@) == prefixed(
            combined(guard_lines(*cond), stateless_lines(then@, Seq::empty(), false, options.debug)),
            prefix@,
        ) && *final(function_state) == *old(function_state),
        (options.pack_format < 20 && el is Some && guard_lines(*cond).len() == 1 && all_plain(then_view(then@))
            && known_total(then_view(then@), options.debug) >= 1) ==> legacy_hoisted(
            *old(function_state),
            *final(function_state),
            guard_lines(*cond),
            then_view(then@),
            prefix@,
            flagged(r@),
        ),
        lines_ok(flagged(r@), prefix@),
        (flagged(r@), final(function_state).model()) == if_c(
            *cond,
            then@,
            opt_view(el),
            prefix@,
            *options,
            old(function_state).model(),
        ),
    decreases 4 + exe_size(then@) + opt_ref_size(el), 2nat,
{
    if options.pack_format < 20 {
        compile_pre_20_format(cond, then, el, prefix, options, global_state, function_state)
    } else {
        compile_since_20_format(cond, then, el, prefix, options, global_state, function_state)
    }
}

fn compile_pre_20_format(
    cond: &Condition,
    then: &Execute,
    el: Option<&Execute>,
    prefix: &str,
    options: &CompileOptions,
    global_state: &CompilerState,
    function_state: &mut FunctionCompilerState,
) -> (r: Vec<(bool, String)>)
    requires
        old(function_state).uid() + 4 + exe_size(then@) + opt_ref_size(el) <= usize::MAX,
    ensures
        advances(*old(function_state), *final(function_state), 4 + exe_size(then@) + opt_ref_size(el)),
        exists|t: Seq<(bool, Seq<char>)>, e: Option<Seq<(bool, Seq<char>)>>, id: Seq<char>|
            flagged(r@) == #[trigger] legacy_lines(guard_lines(*cond), t, e, id, prefix@) && (e is Some <==> el is Some)
                && ((el is Some || guard_lines(*cond).len() > 1) ==> id == md5_hex_of(
                old(function_state).path_view() + ":"@ + decimal_of(old(function_state).uid()),
            )) && (el matches Some(x) ==> (stateless(x@, false, options.debug) ==> e == Some(
                stateless_lines(x@, Seq::empty(), false, options.debug),
            ))),
        (el is None && guard_lines(*cond).len() == 1 && stateless(then@, false, options.debug) && stateless_lines(
            then@,
            Seq::empty(),
            false,
            options.debug,
        ).len() <= 1) ==> flagged(r@) == prefixed(
            combined(guard_lines(*cond), stateless_lines(then@, Seq::empty(), false, options.debug)),
            prefix@,
        ) && *final(function_state) == *old(function_state),
        (el is Some && guard_lines(*cond).len() == 1 && all_plain(then_view(then@)) && known_total(
            then_view(then@),
            options.debug,
        ) >= 1) ==> legacy_hoisted(
            *old(function_state),
            *final(function_state),
            guard_lines(*cond),
            then_view(then@),
            prefix@,
            flagged(r@),
        ),
        lines_ok(flagged(r@), prefix@),
        (flagged(r@), final(function_state).model()) == pre20_c(
            *cond,
            then@,
            opt_view(el),
            prefix@,
            *options,
            old(function_state).model(),
        ),
    decreases 4 + exe_size(then@) + opt_ref_size(el), 1nat,
{
    let then_count = then.get_count(options);
    let str_cond = cond.compile(options, global_state, function_state);
    let grouping = el.is_some() || then_count > 1;
    let ghost path0 = function_state.path_view();
    let ghost uid0 = function_state.uid();
    let uses_flag = el.is_some() || str_cond.len() > 1;
    let ghost s0 = function_state.model();
    let success_uid: String = if grouping || uses_flag {
        let uid = function_state.request_uid();
        let key = md5_hex(join3(function_state.path(), ":", decimal(uid).as_str()).as_str());
        assert(function_state.model() == CState { uid: s0.uid + 1, ..s0 });
        key
    } else {
        String::new()
    };
    assert((grouping || uses_flag) ==> success_uid@ == flag_key(s0));
    assert(!(grouping || uses_flag) ==> success_uid@ == Seq::<char>::empty());
    let ghost s1m = function_state.model();
    let then_lines: Vec<(bool, String)> = if grouping {
        let mut group_cmd = then_commands(then);
        if el.is_some() && str_cond.len() <= 1 {
            let flag = Command::Raw(flag_storage("data modify storage shulkerbox:cond ", success_uid.as_str(), " set value true"));
            proof {
                lemma_commands_view_push(group_cmd@, flag);
                lemma_seq_size_push(commands_view(group_cmd@), flag@);
                let tv = then_view(then@);
                let gv = tv.push(flag@);
                if all_plain(tv) {
                    lemma_split_lines_nonempty(flag_set_line(success_uid@));
                    assert(gv.drop_last() =~= tv);
                    assert forall|i: int| 0 <= i < gv.len() implies !(#[trigger] gv[i] is Execute) by {
                        if i < tv.len() {
                            assert(is_plain(tv[i]));
                        }
                    }
                    if known_total(tv, options.debug) >= 1 {
                        assert(known_total(gv, options.debug) > 1);
                    }
                }
            }
            group_cmd.push(flag);
            assert(flag@ == CommandView::Raw(flag_set_line(success_uid@)));
            assert(commands_view(group_cmd@) =~= then_view(then@) + flag_group(success_uid@, el is Some, strs(str_cond@)));
        } else {
            assert(commands_view(group_cmd@) =~= then_view(then@) + flag_group(success_uid@, el is Some, strs(str_cond@)));
        }
        let ghost s1 = *function_state;
        let lines = compile_group(&group_cmd, options, global_state, function_state);
        let tl = prepend_all(lines, "run ");
        assert(flagged(tl@) =~= runs_after(strs(lines@), "run "@));
        proof {
            if el is Some && guard_lines(*cond).len() == 1 && all_plain(then_view(then@)) && known_total(
                then_view(then@),
                options.debug,
            ) >= 1 {
                let call = call_line(s1.namespace_view(), hoisted_path(s1.path_view(), s1.uid()));
                assert(strs(lines@) == seq![call]);
                assert(flagged(tl@) =~= seq![(true, "run "@ + call)]);
            }
        }
        tl
    } else {
        then.compile_internal(String::new(), false, options, global_state, function_state)
    };
    let else_lines: Option<Vec<(bool, String)>> = match el {
        Some(e) => Some(e.compile_internal(String::new(), false, options, global_state, function_state)),
        None => None,
    };
    let r = assemble_legacy(&str_cond, &then_lines, &else_lines, success_uid.as_str(), prefix);
    proof {
        let ev = opt_flagged(else_lines);
        assert(s1m == if grouping || uses_flag { CState { uid: s0.uid + 1, ..s0 } } else { s0 });
        let gl = guard_lines(*cond);
        assert(unflagged_ok(flagged(then_lines@)));
        lemma_legacy_ok(gl, flagged(then_lines@), ev, success_uid@, prefix@);
        if el is Some && gl.len() == 1 && all_plain(then_view(then@)) && known_total(then_view(then@), options.debug) >= 1 {
            assert(success_uid@ == flag_id(*old(function_state)));
            assert(flagged(r@) == legacy_lines(gl, flagged(then_lines@), Some(ev->Some_0), success_uid@, prefix@));
        }
        assert(legacy_lines(gl, flagged(then_lines@), ev, success_uid@, prefix@) == flagged(r@));
        if !grouping && !uses_flag {
            let t = flagged(then_lines@);
            let e0 = Seq::<(bool, Seq<char>)>::empty();
            assert(e0 + e0 + combined(gl, t) + e0 + e0 =~= combined(gl, t));
        }
    }
    r
}

/// Lines after the early-return idiom: each returns from the generated
/// unit once it has run.
pub open spec fn return_lines(g: Seq<Seq<char>>) -> Seq<(bool, Seq<char>)> {
    g.map_values(|s: Seq<char>| (true, "run return run "@ + s))
}

/// The early-return commands of a guard: each clause joined with each line
/// of the grouped then-branch.
pub open spec fn return_head(clauses: Seq<Seq<char>>, g: Seq<Seq<char>>) -> Seq<CommandView> {
    raw_execute(combined(clauses, return_lines(g)))
}

/// `g` are the lines that grouping the leaf commands `cs` gives from state
/// `a`: the call of a new unit for more than one line, else the lines.
pub open spec fn group_lines_of(a: FunctionCompilerState, cs: Seq<CommandView>, debug: bool, g: Seq<Seq<char>>) -> bool {
    &&& (all_plain(cs) && known_total(cs, debug) > 1) ==> g == seq![
        call_line(a.namespace_view(), hoisted_path(a.path_view(), a.uid())),
    ]
    &&& (all_plain(cs) && known_total(cs, debug) <= 1) ==> g == plain_seq_lines(cs, debug)
}

/// The commands that an else branch adds to the early-return unit, where
/// it is no further guard.
pub open spec fn flat_else(e: ExecuteView) -> Option<Seq<CommandView>> {
    match e {
        ExecuteView::If(..) => None,
        ExecuteView::Run(c) => match *c {
            CommandView::Execute(ExecuteView::If(..)) => None,
            other => Some(seq![other]),
        },
        ExecuteView::Runs(cs) => Some(cs),
        _ => Some(seq![CommandView::Execute(e)]),
    }
}

/// The guard of an else branch that is itself a guard.
pub open spec fn else_guard(e: ExecuteView) -> Option<Condition> {
    match e {
        ExecuteView::If(c, _, _) => Some(c),
        ExecuteView::Run(c) => match *c {
            CommandView::Execute(ExecuteView::If(g, _, _)) => Some(g),
            _ => None,
        },
        _ => None,
    }
}

pub open spec fn opt_view(el: Option<&Execute>) -> Option<ExecuteView> {
    match el {
        Some(x) => Some(x@),
        None => None,
    }
}

/// `r` begins with the return lines of a guard.
pub open spec fn heads_with(r: Seq<CommandView>, clauses: Seq<Seq<char>>, g: Seq<Seq<char>>) -> bool {
    return_head(clauses, g).len() <= r.len() && r.subrange(0, return_head(clauses, g).len() as int) == return_head(clauses, g)
}

/// The commands `r` of an early-return unit: the guard's return lines,
/// then the flattened else branch.
pub open spec fn return_group(r: Seq<CommandView>, clauses: Seq<Seq<char>>, g: Seq<Seq<char>>, el: Option<ExecuteView>) -> bool {
    &&& return_head(clauses, g).len() <= r.len()
    &&& r.subrange(0, return_head(clauses, g).len() as int) == return_head(clauses, g)
    &&& el is None ==> r == return_head(clauses, g)
    &&& (el matches Some(x) ==> (flat_else(x) matches Some(t) ==> r == return_head(clauses, g) + t))
}

/// Raw `execute` commands of guarded lines.
pub open spec fn raw_execute(items: Seq<(bool, Seq<char>)>) -> Seq<CommandView> {
    items.map_values(|p: (bool, Seq<char>)| CommandView::Raw("execute "@ + p.1))
}

/// A single-clause guard whose then-branch was hoisted into a new unit:
/// one line per clause that runs the call, the unit queued, one id taken.
pub open spec fn hoisted_then(
    a: FunctionCompilerState,
    b: FunctionCompilerState,
    clauses: Seq<Seq<char>>,
    cmds: Seq<CommandView>,
    prefix: Seq<char>,
    r: Seq<(bool, Seq<char>)>,
) -> bool {
    &&& r == prefixed(
        combined(clauses, seq![(true, "run "@ + call_line(a.namespace_view(), hoisted_path(a.path_view(), a.uid())))]),
        prefix,
    )
    &&& b.queue() == a.queue().push(hoisted_unit(a, cmds))
    &&& b.uid() == a.uid() + 1
}

/// What the modern lowering gives: a hoisted single-clause branch of leaf
/// commands as by `hoisted_then`, and with an else branch or several clauses,
/// lines that all run after the prefix.
pub open spec fn modern_lowering(
    a: FunctionCompilerState,
    b: FunctionCompilerState,
    cond: Condition,
    then: ExecuteView,
    has_else: bool,
    prefix: Seq<char>,
    debug: bool,
    r: Seq<(bool, String)>,
) -> bool {
    &&& (!has_else && guard_lines(cond).len() == 1 && all_plain(then_view(then)) && known_total(then_view(then), debug) > 1)
        ==> hoisted_then(a, b, guard_lines(cond), then_view(then), prefix, flagged(r))
    &&& (has_else || guard_lines(cond).len() > 1) ==> forall|i: int|
        0 <= i < r.len() ==> (#[trigger] r[i]).0 && starts_with(r[i].1@, prefix + "run "@)
}

/// The flagged views of optional lines.
pub open spec fn opt_flagged(v: Option<Vec<(bool, String)>>) -> Option<Seq<(bool, Seq<char>)>> {
    match v {
        Some(x) => Some(flagged(x@)),
        None => None,
    }
}

/// The line that sets the success flag `id`.
pub open spec fn flag_set_line(id: Seq<char>) -> Seq<char> {
    "data modify storage shulkerbox:cond "@ + id + " set value true"@
}

/// The line that removes the success flag `id`.
pub open spec fn flag_remove_line(id: Seq<char>) -> Seq<char> {
    "data remove storage shulkerbox:cond "@ + id
}

/// The test on the success flag `id`.
pub open spec fn flag_test(id: Seq<char>) -> Seq<char> {
    "data storage shulkerbox:cond {"@ + id + ":1b}"@
}

/// The prefix put before each line flagged for it.
pub open spec fn prefixed(items: Seq<(bool, Seq<char>)>, prefix: Seq<char>) -> Seq<(bool, Seq<char>)> {
    items.map_values(|p: (bool, Seq<char>)| if p.0 { (true, prefix + p.1) } else { p })
}

proof fn lemma_combined_unflagged(c: Seq<Seq<char>>, t: Seq<(bool, Seq<char>)>)
    requires
        unflagged_ok(t),
    ensures
        unflagged_ok(combined(c, t)),
    decreases c.len(),
{
    if c.len() > 0 {
        lemma_combined_unflagged(c.drop_last(), t);
        let a = combined(c.drop_last(), t);
        let b = t.map_values(|p: (bool, Seq<char>)| join_line(c.last(), p));
        assert forall|i: int| 0 <= i < (a + b).len() && !(#[trigger] (a + b)[i]).0 implies passthrough((a + b)[i].1)
            || cleanup_line((a + b)[i].1) by {
            if i < a.len() {
                assert((a + b)[i] == a[i]);
            } else {
                assert((a + b)[i] == b[i - a.len()]);
                assert(b[i - a.len()] == join_line(c.last(), t[i - a.len()]));
            }
        }
    }
}

proof fn lemma_prefixed_ok(x: Seq<(bool, Seq<char>)>, prefix: Seq<char>)
    requires
        unflagged_ok(x),
    ensures
        lines_ok(prefixed(x, prefix), prefix),
{
    let y = prefixed(x, prefix);
    assert forall|i: int| 0 <= i < y.len() && (#[trigger] y[i]).0 implies starts_with(y[i].1, prefix) by {
        assert(y[i] == (true, prefix + x[i].1));
        assert((prefix + x[i].1).subrange(0, prefix.len() as int) =~= prefix);
    }
    assert forall|i: int| 0 <= i < y.len() && !(#[trigger] y[i]).0 implies passthrough(y[i].1) || cleanup_line(y[i].1) by {
        assert(y[i] == x[i]);
    }
}

proof fn lemma_concat_unflagged(a: Seq<(bool, Seq<char>)>, b: Seq<(bool, Seq<char>)>)
    requires
        unflagged_ok(a),
        unflagged_ok(b),
    ensures
        unflagged_ok(a + b),
{
    assert forall|i: int| 0 <= i < (a + b).len() && !(#[trigger] (a + b)[i]).0 implies passthrough((a + b)[i].1)
        || cleanup_line((a + b)[i].1) by {
        if i < a.len() {
            assert((a + b)[i] == a[i]);
        } else {
            assert((a + b)[i] == b[i - a.len()]);
        }
    }
}

proof fn lemma_legacy_ok(
    clauses: Seq<Seq<char>>,
    t: Seq<(bool, Seq<char>)>,
    e: Option<Seq<(bool, Seq<char>)>>,
    id: Seq<char>,
    prefix: Seq<char>,
)
    requires
        unflagged_ok(t),
        e matches Some(x) ==> unflagged_ok(x),
    ensures
        lines_ok(legacy_lines(clauses, t, e, id, prefix), prefix),
{
    let multi = clauses.len() > 1;
    let cleanup: Seq<(bool, Seq<char>)> = if multi || e is Some {
        seq![(false, flag_remove_line(id))]
    } else {
        Seq::empty()
    };
    assert(unflagged_ok(cleanup)) by {
        if multi || e is Some {
            assert(flag_remove_line(id).subrange(0, "data remove storage shulkerbox:cond "@.len() as int)
                =~= "data remove storage shulkerbox:cond "@);
            assert(cleanup_line(cleanup[0].1));
        }
    }
    let set: Seq<(bool, Seq<char>)> = seq![(true, "run "@ + flag_set_line(id))];
    assert(unflagged_ok(set));
    lemma_combined_unflagged(clauses, set);
    let or_part = if multi { combined(clauses, set) } else { Seq::empty() };
    assert(unflagged_ok(or_part));
    let then_guard = if multi { seq!["if "@ + flag_test(id)] } else { clauses };
    lemma_combined_unflagged(then_guard, t);
    let else_part = match e {
        Some(x) => combined(seq!["unless "@ + flag_test(id)], x),
        None => Seq::empty(),
    };
    assert(unflagged_ok(else_part)) by {
        match e {
            Some(x) => lemma_combined_unflagged(seq!["unless "@ + flag_test(id)], x),
            None => {},
        }
    }
    lemma_concat_unflagged(cleanup, or_part);
    lemma_concat_unflagged(cleanup + or_part, combined(then_guard, t));
    lemma_concat_unflagged(cleanup + or_part + combined(then_guard, t), else_part);
    lemma_concat_unflagged(cleanup + or_part + combined(then_guard, t) + else_part, cleanup);
    lemma_prefixed_ok(cleanup + or_part + combined(then_guard, t) + else_part + cleanup, prefix);
}

/// The success flag of the guard compiled from state `a`.
pub open spec fn flag_id(a: FunctionCompilerState) -> Seq<char> {
    md5_hex_of(a.path_view() + ":"@ + decimal_of(a.uid()))
}

/// A legacy guard with an else branch whose then-branch of leaf commands
/// was hoisted with the flag-setting command appended: the guard runs the
/// call of that unit.
pub open spec fn legacy_hoisted(
    a: FunctionCompilerState,
    b: FunctionCompilerState,
    clauses: Seq<Seq<char>>,
    cmds: Seq<CommandView>,
    prefix: Seq<char>,
    r: Seq<(bool, Seq<char>)>,
) -> bool {
    let p = hoisted_path(a.path_view(), a.uid() + 1);
    let unit_cmds = cmds.push(CommandView::Raw(flag_set_line(flag_id(a))));
    &&& exists|e: Seq<(bool, Seq<char>)>|
        r == #[trigger] legacy_lines(clauses, seq![(true, "run "@ + call_line(a.namespace_view(), p))], Some(e), flag_id(a), prefix)
    &&& b.queue().len() > a.queue().len()
    &&& b.queue()[a.queue().len() as int] == (p, FunctionView { commands: unit_cmds, name: p, namespace: a.namespace_view() })
}

/// The lines of the legacy lowering of a guard with test texts `clauses`,
/// compiled then-lines and optional else-lines, and success flag `id`: the
/// flag is cleared before and after wherever it is used; with several
/// clauses each sets the flag and the then-lines test it; the else-lines
/// test its absence.
pub open spec fn legacy_lines(
    clauses: Seq<Seq<char>>,
    then_lines: Seq<(bool, Seq<char>)>,
    else_lines: Option<Seq<(bool, Seq<char>)>>,
    id: Seq<char>,
    prefix: Seq<char>,
) -> Seq<(bool, Seq<char>)> {
    let multi = clauses.len() > 1;
    let cleanup: Seq<(bool, Seq<char>)> = if multi || else_lines is Some {
        seq![(false, flag_remove_line(id))]
    } else {
        Seq::empty()
    };
    let or_part = if multi {
        combined(clauses, seq![(true, "run "@ + flag_set_line(id))])
    } else {
        Seq::empty()
    };
    let then_guard = if multi {
        seq!["if "@ + flag_test(id)]
    } else {
        clauses
    };
    let else_part = match else_lines {
        Some(e) => combined(seq!["unless "@ + flag_test(id)], e),
        None => Seq::empty(),
    };
    prefixed(cleanup + or_part + combined(then_guard, then_lines) + else_part + cleanup, prefix)
}

fn single_line(s: String) -> (r: Vec<String>)
    ensures
        strs(r@) == seq![s@],
{
    let mut v: Vec<String> = Vec::new();
    v.push(s);
    assert(strs(v@) =~= seq![s@]);
    v
}

/// Assemble the legacy lowering from the guard's test texts, the compiled
/// then- and else-lines and the success flag.
pub fn assemble_legacy(
    str_cond: &Vec<String>,
    then_lines: &Vec<(bool, String)>,
    else_lines: &Option<Vec<(bool, String)>>,
    success_uid: &str,
    prefix: &str,
) -> (r: Vec<(bool, String)>)
    ensures
        flagged(r@) == legacy_lines(strs(str_cond@), flagged(then_lines@), opt_flagged(*else_lines), success_uid@, prefix@),
{
    let multi = str_cond.len() > 1;
    let uses_flag = multi || else_lines.is_some();
    let ghost id = success_uid@;
    let mut out: Vec<(bool, String)> = Vec::new();
    if uses_flag {
        out.push((false, join2("data remove storage shulkerbox:cond ", success_uid)));
    }
    let ghost cleanup = flagged(out@);
    if multi {
        let mut set_cmd: Vec<(bool, String)> = Vec::new();
        let set_line = join2("run ", flag_storage("data modify storage shulkerbox:cond ", success_uid, " set value true").as_str());
        assert(set_line@ =~= "run "@ + flag_set_line(id));
        set_cmd.push((true, set_line));
        assert(flagged(set_cmd@) =~= seq![(true, "run "@ + flag_set_line(id))]);
        let mut or_lines = combine_conditions_commands(str_cond, &set_cmd);
        let ghost ov = flagged(or_lines@);
        let ghost before = out@;
        out.append(&mut or_lines);
        assert(flagged(out@) =~= flagged(before) + ov);
    }
    let ghost after_or = flagged(out@);
    let mut then_part = if multi {
        let test = join2("if ", flag_storage("data storage shulkerbox:cond {", success_uid, ":1b}").as_str());
        assert(test@ =~= "if "@ + flag_test(id));
        let guard = single_line(test);
        combine_conditions_commands(&guard, then_lines)
    } else {
        combine_conditions_commands(str_cond, then_lines)
    };
    let ghost tv = flagged(then_part@);
    let ghost before_then = out@;
    out.append(&mut then_part);
    assert(flagged(out@) =~= flagged(before_then) + tv);
    let ghost after_then = flagged(out@);
    match else_lines {
        Some(e) => {
            let test = join2("unless ", flag_storage("data storage shulkerbox:cond {", success_uid, ":1b}").as_str());
            assert(test@ =~= "unless "@ + flag_test(id));
            let guard = single_line(test);
            let mut else_part = combine_conditions_commands(&guard, e);
            let ghost evv = flagged(else_part@);
            let ghost before_else = out@;
            out.append(&mut else_part);
            assert(flagged(out@) =~= flagged(before_else) + evv);
        },
        None => {},
    }
    let ghost after_else = flagged(out@);
    if uses_flag {
        let ghost before_last = out@;
        out.push((false, join2("data remove storage shulkerbox:cond ", success_uid)));
        assert(flagged(out@) =~= flagged(before_last) + cleanup);
    } else {
        assert(flagged(out@) =~= flagged(out@) + cleanup);
    }
    proof {
        let clauses = strs(str_cond@);
        let or_part = if multi {
            combined(clauses, seq![(true, "run "@ + flag_set_line(id))])
        } else {
            Seq::<(bool, Seq<char>)>::empty()
        };
        let then_guard = if multi { seq!["if "@ + flag_test(id)] } else { clauses };
        let else_part = match opt_flagged(*else_lines) {
            Some(e) => combined(seq!["unless "@ + flag_test(id)], e),
            None => Seq::<(bool, Seq<char>)>::empty(),
        };
        assert(cleanup == if multi || else_lines.is_some() {
            seq![(false, flag_remove_line(id))]
        } else {
            Seq::<(bool, Seq<char>)>::empty()
        }) by {
            if uses_flag {
                assert(cleanup =~= seq![(false, flag_remove_line(id))]);
            } else {
                assert(cleanup =~= Seq::<(bool, Seq<char>)>::empty());
            }
        }
        assert(after_or =~= cleanup + or_part);
        assert(tv == combined(then_guard, flagged(then_lines@)));
        assert(after_then =~= cleanup + or_part + combined(then_guard, flagged(then_lines@)));
        assert(after_else =~= cleanup + or_part + combined(then_guard, flagged(then_lines@)) + else_part);
        assert(flagged(out@) =~= cleanup + or_part + combined(then_guard, flagged(then_lines@)) + else_part + cleanup);
    }
    apply_prefix(out, prefix)
}

fn compile_since_20_format(
    cond: &Condition,
    then: &Execute,
    el: Option<&Execute>,
    prefix: &str,
    options: &CompileOptions,
    global_state: &CompilerState,
    function_state: &mut FunctionCompilerState,
) -> (r: Vec<(bool, String)>)
    requires
        old(function_state).uid() + 4 + exe_size(then@) + opt_ref_size(el) <= usize::MAX,
    ensures
        advances(*old(function_state), *final(function_state), 4 + exe_size(then@) + opt_ref_size(el)),
        (el is None && guard_lines(*cond).len() == 1 && all_plain(then_view(then@)) && known_total(
            then_view(then@),
            options.debug,
        ) > 1) ==> hoisted_then(*old(function_state), *final(function_state), guard_lines(*cond), then_view(then@), prefix@, flagged(r@)),
        (el is Some || guard_lines(*cond).len() > 1) ==> forall|i: int|
            0 <= i < r@.len() ==> (#[trigger] r@[i]).0 && starts_with(r@[i].1@, prefix@ + "run "@),
        (el is None && guard_lines(*cond).len() == 1 && stateless(then@, false, options.debug) && stateless_lines(
            then@,
            Seq::empty(),
            false,
            options.debug,
        ).len() <= 1) ==> flagged(r@) == prefixed(
            combined(guard_lines(*cond), stateless_lines(then@, Seq::empty(), false, options.debug)),
            prefix@,
        ) && *final(function_state) == *old(function_state),
        lines_ok(flagged(r@), prefix@),
        (flagged(r@), final(function_state).model()) == since20_c(
            *cond,
            then@,
            opt_view(el),
            prefix@,
            *options,
            old(function_state).model(),
        ),
    decreases 4 + exe_size(then@) + opt_ref_size(el), 1nat,
{
    let then_count = then.get_count(options);
    let str_cond = cond.compile(options, global_state, function_state);
    let ghost tv = then_view(then@);
    proof {
        if el is None && guard_lines(*cond).len() == 1 && all_plain(tv) && known_total(tv, options.debug) > 1 {
            lemma_known_total_le_lines(tv, options.debug);
            match then@ {
                ExecuteView::Run(c) => {
                    assert(is_plain(tv[0]));
                    assert(seq![*c].drop_last() =~= Seq::<CommandView>::empty());
                    assert(plain_seq_lines(Seq::<CommandView>::empty(), options.debug) == Seq::<Seq<char>>::empty());
                    assert(Seq::<Seq<char>>::empty() + plain_lines(*c, options.debug) =~= plain_lines(*c, options.debug));
                    assert(plain_seq_lines(tv, options.debug) == plain_lines(*c, options.debug));
                },
                ExecuteView::Runs(cs) => {},
                _ => {
                    assert(is_plain(tv[0]));
                },
            }
            assert(then_count > 1);
        }
    }
    if el.is_some() || str_cond.len() > 1 {
        let group_cmds = handle_return_group_case_since_20(str_cond, then, el, prefix, options, global_state, function_state);
        let lines = compile_group(&group_cmds, options, global_state, function_state);
        let head = join2(prefix, "run ");
        let r = prepend_all(lines, head.as_str());
        proof {
            assert forall|i: int| 0 <= i < r@.len() implies (#[trigger] r@[i]).0 && starts_with(r@[i].1@, prefix@ + "run "@) by {
                assert(flagged(r@).len() == r@.len());
                assert(flagged(r@)[i] == (r@[i].0, r@[i].1@));
                assert(flagged(r@)[i] == (true, head@ + strs(lines@)[i]));
                assert(r@[i].1@.subrange(0, head@.len() as int) =~= head@);
            }
            let fr = flagged(r@);
            assert forall|i: int| 0 <= i < fr.len() && (#[trigger] fr[i]).0 implies starts_with(fr[i].1, prefix@) by {
                assert(fr[i] == (r@[i].0, r@[i].1@));
                assert(starts_with(r@[i].1@, prefix@ + "run "@));
                let hl = (prefix@ + "run "@).len() as int;
                assert(r@[i].1@.subrange(0, hl) == prefix@ + "run "@);
                assert((prefix@ + "run "@).subrange(0, prefix@.len() as int) =~= prefix@);
                assert(r@[i].1@.subrange(0, prefix@.len() as int) =~= r@[i].1@.subrange(0, hl).subrange(0, prefix@.len() as int));
            }
            assert forall|i: int| 0 <= i < fr.len() && !(#[trigger] fr[i]).0 implies passthrough(fr[i].1) || cleanup_line(fr[i].1) by {
                assert(fr[i] == (r@[i].0, r@[i].1@));
            }
        }
        r
    } else if then_count > 1 {
        let then_cmd = then_commands(then);
        proof {
            if all_plain(then_view(then@)) {
                lemma_known_total_le_lines(then_view(then@), options.debug);
            }
        }
        let ghost s0 = *function_state;
        proof {
            if all_plain(tv) {
                assert forall|i: int| 0 <= i < tv.len() implies !(#[trigger] tv[i] is Execute) by {
                    assert(is_plain(tv[i]));
                }
            }
        }
        let lines = compile_group(&then_cmd, options, global_state, function_state);
        let then_cmd_str = prepend_all(lines, "run ");
        let r = apply_prefix(combine_conditions_commands(&str_cond, &then_cmd_str), prefix);
        assert(flagged(r@) == prefixed(combined(guard_lines(*cond), flagged(then_cmd_str@)), prefix@));
        proof {
            assert(unflagged_ok(flagged(then_cmd_str@)));
            lemma_combined_unflagged(guard_lines(*cond), flagged(then_cmd_str@));
            lemma_prefixed_ok(combined(guard_lines(*cond), flagged(then_cmd_str@)), prefix@);
            if all_plain(tv) && known_total(tv, options.debug) > 1 {
                let call = call_line(s0.namespace_view(), hoisted_path(s0.path_view(), s0.uid()));
                assert(strs(lines@) == seq![call]);
                assert(flagged(then_cmd_str@) =~= seq![(true, "run "@ + call)]);
            }
        }
        r
    } else {
        let str_cmd = then.compile_internal(String::new(), false, options, global_state, function_state);
        let r = apply_prefix(combine_conditions_commands(&str_cond, &str_cmd), prefix);
        assert(flagged(r@) == prefixed(combined(guard_lines(*cond), flagged(str_cmd@)), prefix@));
        proof {
            lemma_combined_unflagged(guard_lines(*cond), flagged(str_cmd@));
            lemma_prefixed_ok(combined(guard_lines(*cond), flagged(str_cmd@)), prefix@);
        }
        r
    }
}

fn handle_return_group_case_since_20(
    str_cond: Vec<String>,
    then: &Execute,
    el: Option<&Execute>,
    prefix: &str,
    options: &CompileOptions,
    global_state: &CompilerState,
    function_state: &mut FunctionCompilerState,
) -> (r: Vec<Command>)
    requires
        old(function_state).uid() + 4 + exe_size(then@) + opt_ref_size(el) <= usize::MAX,
    ensures
        advances(*old(function_state), *final(function_state), 3 + exe_size(then@) + opt_ref_size(el)),
        final(function_state).uid() + seq_size(commands_view(r@)) <= old(function_state).uid() + 3
            + exe_size(then@) + opt_ref_size(el),
        seq_size(commands_view(r@)) <= 1 + opt_ref_size(el),
        queue_weight(final(function_state).queue()) + seq_size(commands_view(r@)) <= queue_weight(
            old(function_state).queue(),
        ) + 3 + exe_size(then@) + opt_ref_size(el),
        exists|g: Seq<Seq<char>>|
            #[trigger] return_group(commands_view(r@), strs(str_cond@), g, opt_view(el)) && group_lines_of(
                *old(function_state),
                then_view(then@),
                options.debug,
                g,
            ),
        commands_view(r@) == raws(hrg_c(strs(str_cond@), then@, opt_view(el), *options, old(function_state).model()).0)
            + flat_tail(opt_view(el)),
        final(function_state).model() == hrg_c(strs(str_cond@), then@, opt_view(el), *options, old(function_state).model()).1,
    decreases 4 + exe_size(then@) + opt_ref_size(el), 0nat,
{
    let then_cmd = then_commands(then);
    let ghost s0 = *function_state;
    proof {
        let tv = then_view(then@);
        if all_plain(tv) {
            assert forall|i: int| 0 <= i < tv.len() implies !(#[trigger] tv[i] is Execute) by {
                assert(is_plain(tv[i]));
            }
        }
    }
    let lines = compile_group(&then_cmd, options, global_state, function_state);
    let ghost g = strs(lines@);
    assert(group_lines_of(s0, then_view(then@), options.debug, g));
    let then_cmd_str = prepend_all(lines, "run return run ");
    assert(flagged(then_cmd_str@) == return_lines(g));
    let then_cond_str = combine_conditions_commands(&str_cond, &then_cmd_str);
    let ghost items = flagged(then_cond_str@);
    let mut group_cmds: Vec<Command> = Vec::new();
    let mut i: usize = 0;
    while i < then_cond_str.len()
        invariant
            i <= then_cond_str@.len(),
            items == flagged(then_cond_str@),
            seq_size(commands_view(group_cmds@)) == 0,
            commands_view(group_cmds@) == raw_execute(items.take(i as int)),
        decreases then_cond_str.len() - i,
    {
        let c = Command::Raw(join2("execute ", then_cond_str[i].1.as_str()));
        proof {
            lemma_commands_view_push(group_cmds@, c);
            lemma_seq_size_push(commands_view(group_cmds@), c@);
            assert(items[i as int].1 == then_cond_str@[i as int].1@);
            assert(raw_execute(items.take(i + 1)) =~= raw_execute(items.take(i as int)).push(c@));
        }
        group_cmds.push(c);
        i = i + 1;
    }
    assert(items.take(i as int) =~= items);
    let ghost head = commands_view(group_cmds@);
    match el {
        Some(e) => handle_else_since_20(&mut group_cmds, e, prefix, options, global_state, function_state),
        None => {
            assert(head =~= head + Seq::<CommandView>::empty());
        },
    }
    proof {
        let rest = commands_view(group_cmds@).subrange(head.len() as int, commands_view(group_cmds@).len() as int);
        assert(commands_view(group_cmds@) =~= head + rest);
        if el is None {
            assert(rest =~= Seq::<CommandView>::empty());
        }
        assert(head == raw_execute(combined(strs(str_cond@), return_lines(g))));
        assert(commands_view(group_cmds@).subrange(0, head.len() as int) =~= head);
        assert(return_group(commands_view(group_cmds@), strs(str_cond@), g, opt_view(el)));
    }
    group_cmds
}

fn handle_else_since_20(
    group_cmds: &mut Vec<Command>,
    el: &Execute,
    prefix: &str,
    options: &CompileOptions,
    global_state: &CompilerState,
    function_state: &mut FunctionCompilerState,
)
    requires
        old(function_state).uid() + exe_size(el@) <= usize::MAX,
    ensures
        advances(*old(function_state), *final(function_state), exe_size(el@)),
        final(function_state).uid() + seq_size(commands_view(final(group_cmds)@)) <= old(function_state).uid()
            + seq_size(commands_view(old(group_cmds)@)) + 1 + exe_size(el@),
        queue_weight(final(function_state).queue()) + seq_size(commands_view(final(group_cmds)@)) <= queue_weight(
            old(function_state).queue(),
        ) + seq_size(commands_view(old(group_cmds)@)) + 1 + exe_size(el@),
        commands_view(final(group_cmds)@).len() >= commands_view(old(group_cmds)@).len(),
        commands_view(final(group_cmds)@).subrange(0, commands_view(old(group_cmds)@).len() as int)
            == commands_view(old(group_cmds)@),
        flat_else(el@) matches Some(t) ==> commands_view(final(group_cmds)@) == commands_view(old(group_cmds)@) + t,
        else_guard(el@) matches Some(c) ==> exists|g: Seq<Seq<char>>|
            commands_view(old(group_cmds)@).len() + #[trigger] return_head(guard_lines(c), g).len() <= commands_view(
                final(group_cmds)@,
            ).len() && commands_view(final(group_cmds)@).subrange(
                commands_view(old(group_cmds)@).len() as int,
                (commands_view(old(group_cmds)@).len() + return_head(guard_lines(c), g).len()) as int,
            ) == return_head(guard_lines(c), g),
        commands_view(final(group_cmds)@) == commands_view(old(group_cmds)@) + raws(
            else_c(el@, *options, old(function_state).model()).0,
        ) + tail_of(el@),
        final(function_state).model() == else_c(el@, *options, old(function_state).model()).1,
    decreases exe_size(el@), 1nat,
{
    let ghost g0 = commands_view(group_cmds@);
    let ghost s_in = *function_state;
    match el {
        Execute::If(cond, then, el2) => {
            let el2_ref = Execute::else_ref(el2);
            proof {
                lemma_if_size(*cond, *then, *el2);
            }
            let c = cond.compile(options, global_state, function_state);
            let x = handle_return_group_case_since_20(c, then, el2_ref, prefix, options, global_state, function_state);
            let ghost xv = commands_view(x@);
            proof {
                let g = choose|g: Seq<Seq<char>>| #[trigger] return_group(xv, guard_lines(*cond), g, opt_view(el2_ref))
                    && group_lines_of(s_in, then_view(then@), options.debug, g);
                assert(heads_with(xv, guard_lines(*cond), g));
                lemma_heads_after(g0, xv, guard_lines(*cond), g);
            }
            append_commands(group_cmds, x);
        },
        Execute::Run(cmd) => match &**cmd {
            Command::Execute(Execute::If(cond, then, el2)) => {
                let el2_ref = Execute::else_ref(el2);
                proof {
                    lemma_if_size(*cond, *then, *el2);
                    lemma_run_execute_size(Execute::If(*cond, *then, *el2));
                }
                let c = cond.compile(options, global_state, function_state);
                let x = handle_return_group_case_since_20(c, then, el2_ref, prefix, options, global_state, function_state);
                let ghost xv = commands_view(x@);
                proof {
                    let g = choose|g: Seq<Seq<char>>| #[trigger] return_group(xv, guard_lines(*cond), g, opt_view(el2_ref))
                        && group_lines_of(s_in, then_view(then@), options.debug, g);
                    assert(heads_with(xv, guard_lines(*cond), g));
                    lemma_heads_after(g0, xv, guard_lines(*cond), g);
                }
                append_commands(group_cmds, x);
            },
            _ => append_commands(group_cmds, single(cmd.duplicate())),
        },
        Execute::Runs(cmds) => append_commands(group_cmds, copy_commands(cmds)),
        ex => append_commands(group_cmds, single(Command::Execute(ex.duplicate()))),
    }
}

proof fn lemma_heads_after(a: Seq<CommandView>, x: Seq<CommandView>, clauses: Seq<Seq<char>>, g: Seq<Seq<char>>)
    requires
        heads_with(x, clauses, g),
    ensures
        a.len() + return_head(clauses, g).len() <= (a + x).len(),
        (a + x).subrange(a.len() as int, (a.len() + return_head(clauses, g).len()) as int) == return_head(clauses, g),
{
    let k = return_head(clauses, g).len();
    assert((a + x).subrange(a.len() as int, (a.len() + k) as int) =~= x.subrange(0, k as int));
}

/// Append `extra` to `group_cmds`.
fn append_commands(group_cmds: &mut Vec<Command>, extra: Vec<Command>)
    ensures
        commands_view(final(group_cmds)@) == commands_view(old(group_cmds)@) + commands_view(extra@),
        seq_size(commands_view(final(group_cmds)@)) == seq_size(commands_view(old(group_cmds)@)) + seq_size(
            commands_view(extra@),
        ),
        commands_view(final(group_cmds)@).subrange(0, commands_view(old(group_cmds)@).len() as int)
            == commands_view(old(group_cmds)@),
{
    let ghost g0 = group_cmds@;
    let ghost ev = extra@;
    let mut extra = extra;
    group_cmds.append(&mut extra);
    proof {
        lemma_commands_view_concat(g0, ev);
        lemma_seq_size_concat(commands_view(g0), commands_view(ev));
        assert(commands_view(group_cmds@).subrange(0, commands_view(g0).len() as int) =~= commands_view(g0));
    }
}

} // verus!
