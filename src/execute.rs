//! The command compiler: leaf commands, group hoisting into generated
//! functions, and execute chains with their accumulated prefix.

use vstd::prelude::*;
use vstd::string::*;
use crate::command::{lemma_if_size, lemma_run_execute_size, opt_box_size, opt_ref_size, Command, CommandView, Execute, ExecuteView, all_plain, cmd_size, command_view, commands_view, copy_commands, exe_size, is_plain, known_count, known_total, lemma_commands_view, lemma_commands_view_concat, lemma_commands_view_push, lemma_seq_size_concat, lemma_seq_size_push, lemma_seq_size_take, no_execute, plain_lines, plain_seq_lines, seq_size, DEBUG_CLOSE, DEBUG_OPEN};
use crate::compile::{CompileOptions, CompilerState, FunctionCompilerState, advances, lemma_queue_weight_push, queue_weight};
use crate::conditional::{combined, compile_if_cond, prefixed};
use crate::condition::guard_lines;
use crate::digest::{md5_hex, md5_hex_of};
use crate::function::{Function, FunctionView};
use crate::model::{CState, cmd_c, cmd_count, exe_c, exe_count, fresh_state, group_c, group_total, root_c, seq_c, unbox};
use crate::queue::ExtendableQueue;
use crate::text::{decimal, decimal_of, has_prefix, is_space, join2, join3, lines, owned, starts_with};

verus! {

broadcast use vstd::std_specs::vec::group_vec_axioms;

/// The views of a list of strings.
pub open spec fn strs(v: Seq<String>) -> Seq<Seq<char>> {
    v.map_values(|s: String| s@)
}

/// The views of a list of flagged strings.
pub open spec fn flagged(v: Seq<(bool, String)>) -> Seq<(bool, Seq<char>)> {
    v.map_values(|p: (bool, String)| (p.0, p.1@))
}

/// A line kept apart from the accumulated prefix: a comment or blank.
pub open spec fn passthrough(s: Seq<char>) -> bool {
    (s.len() > 0 && s[0] == '#') || forall|i: int| 0 <= i < s.len() ==> is_space(#[trigger] s[i])
}

/// The path of a generated unit, without its staging segment.
pub open spec fn unit_base(path: Seq<char>) -> Seq<char> {
    if starts_with(path, "sb/"@) {
        path.subrange(3, path.len() as int)
    } else {
        path
    }
}

/// The path of the unit hoisted from the function at `path` with id `uid`.
pub open spec fn hoisted_path(path: Seq<char>, uid: nat) -> Seq<char> {
    "sb/"@ + unit_base(path) + "/"@ + md5_hex_of(unit_base(path) + ":"@ + decimal_of(uid)).take(16)
}

/// The line that calls the function `path` of namespace `ns`.
pub open spec fn call_line(ns: Seq<char>, path: Seq<char>) -> Seq<char> {
    "function "@ + ns + ":"@ + path
}

/// The execute chain holds no conditional.
pub open spec fn no_if(e: ExecuteView) -> bool
    decreases e,
{
    match e {
        ExecuteView::Step(_, _, n) => no_if(*n),
        ExecuteView::If(_, _, _) => false,
        ExecuteView::Run(c) => match *c {
            CommandView::Execute(x) => no_if(x),
            _ => true,
        },
        ExecuteView::Runs(_) => true,
    }
}

/// The text a modifier step adds to the prefix.
pub open spec fn step_text(name: Seq<char>, arg: Seq<char>) -> Seq<char> {
    if name == "as_at"@ {
        "as "@ + arg + " at @s "@
    } else {
        name + " "@ + arg + " "@
    }
}

/// A compiled line after the prefix and `run `, or alone where it is a
/// comment or blank.
pub open spec fn run_line(prefix: Seq<char>, l: Seq<char>) -> (bool, Seq<char>) {
    if passthrough(l) {
        (false, l)
    } else {
        (true, prefix + "run "@ + l)
    }
}

pub open spec fn run_lines(ls: Seq<Seq<char>>, prefix: Seq<char>) -> Seq<(bool, Seq<char>)> {
    ls.map_values(|l: Seq<char>| run_line(prefix, l))
}

/// The execute chain compiles without touching the compile state: modifier
/// steps over runs of leaf commands, and single-clause guards without else
/// over a branch of at most one line. `grouped` says a summon step forces
/// grouping.
pub open spec fn stateless(e: ExecuteView, grouped: bool, debug: bool) -> bool
    decreases e,
{
    match e {
        ExecuteView::Step(name, _, n) => stateless(*n, grouped || name == "summon"@, debug),
        ExecuteView::Run(c) => match *c {
            CommandView::Execute(x) => stateless(x, grouped, debug),
            other => is_plain(other),
        },
        ExecuteView::Runs(cs) => all_plain(cs) && (!grouped || known_total(cs, debug) <= 1),
        ExecuteView::If(cond, t, el) => el is None && guard_lines(cond).len() == 1 && stateless(*t, false, debug)
            && stateless_lines(*t, Seq::empty(), false, debug).len() <= 1,
    }
}

/// The lines of a stateless execute chain after `prefix`, each flagged
/// where it carries the prefix.
pub open spec fn stateless_lines(e: ExecuteView, prefix: Seq<char>, grouped: bool, debug: bool) -> Seq<(bool, Seq<char>)>
    decreases e,
{
    match e {
        ExecuteView::Step(name, arg, n) => stateless_lines(*n, prefix + step_text(name, arg), grouped || name == "summon"@, debug),
        ExecuteView::Run(c) => match *c {
            CommandView::Execute(x) => stateless_lines(x, prefix, grouped, debug),
            other => run_lines(plain_lines(other, debug), prefix),
        },
        ExecuteView::Runs(cs) => run_lines(plain_seq_lines(cs, debug), prefix),
        ExecuteView::If(cond, t, _) => prefixed(combined(guard_lines(cond), stateless_lines(*t, Seq::empty(), false, debug)), prefix),
    }
}

/// A command whose lines are known without any compile state: a leaf
/// command, or a stateless execute chain that is no bare `Run`.
pub open spec fn is_simple(c: CommandView, debug: bool) -> bool {
    is_plain(c) || (c is Execute && !(c->Execute_0 is Run) && stateless(c->Execute_0, false, debug))
}

/// The lines of a simple command.
pub open spec fn simple_lines(c: CommandView, debug: bool) -> Seq<Seq<char>> {
    if is_plain(c) {
        plain_lines(c, debug)
    } else {
        stateless_lines(c->Execute_0, "execute "@, false, debug).map_values(|p: (bool, Seq<char>)| p.1)
    }
}

pub open spec fn all_simple(s: Seq<CommandView>, debug: bool) -> bool {
    forall|i: int| 0 <= i < s.len() ==> is_simple(#[trigger] s[i], debug)
}

/// The lines of simple commands, one after another.
pub open spec fn simple_seq_lines(s: Seq<CommandView>, debug: bool) -> Seq<Seq<char>>
    decreases s.len(),
{
    if s.len() == 0 {
        Seq::empty()
    } else {
        simple_seq_lines(s.drop_last(), debug) + simple_lines(s.last(), debug)
    }
}

/// A command whose line count for the hoisting decision is known: any
/// command but an execute chain that is not simple.
pub open spec fn counted(c: CommandView, debug: bool) -> bool {
    !(c is Execute) || is_simple(c, debug)
}

/// The number of lines a counted command counts for when deciding on
/// hoisting.
pub open spec fn line_count(c: CommandView, debug: bool) -> nat {
    if c is Execute {
        stateless_lines(c->Execute_0, Seq::empty(), false, debug).len()
    } else {
        known_count(c, debug)
    }
}

pub open spec fn all_counted(s: Seq<CommandView>, debug: bool) -> bool {
    forall|i: int| 0 <= i < s.len() ==> counted(#[trigger] s[i], debug)
}

pub open spec fn count_total(s: Seq<CommandView>, debug: bool) -> nat
    decreases s.len(),
{
    if s.len() == 0 {
        0
    } else {
        count_total(s.drop_last(), debug) + line_count(s.last(), debug)
    }
}

proof fn lemma_group_total_mono(s: Seq<CommandView>, i: int, o: CompileOptions)
    requires
        0 <= i <= s.len(),
    ensures
        group_total(s.take(i), o) <= group_total(s, o),
    decreases s.len(),
{
    if i < s.len() {
        assert(s.drop_last().take(i) =~= s.take(i));
        lemma_group_total_mono(s.drop_last(), i, o);
    } else {
        assert(s.take(i) =~= s);
    }
}

proof fn lemma_count_total_mono(s: Seq<CommandView>, i: int, debug: bool)
    requires
        0 <= i <= s.len(),
    ensures
        count_total(s.take(i), debug) <= count_total(s, debug),
    decreases s.len(),
{
    if i < s.len() {
        assert(s.drop_last().take(i) =~= s.take(i));
        lemma_count_total_mono(s.drop_last(), i, debug);
    } else {
        assert(s.take(i) =~= s);
    }
}

/// The line that clears a success flag.
pub open spec fn cleanup_line(s: Seq<char>) -> bool {
    starts_with(s, "data remove storage shulkerbox:cond "@)
}

/// Every line not flagged for the prefix is a comment, blank, or clears a
/// success flag.
pub open spec fn unflagged_ok(r: Seq<(bool, Seq<char>)>) -> bool {
    forall|i: int| 0 <= i < r.len() && !(#[trigger] r[i]).0 ==> passthrough(r[i].1) || cleanup_line(r[i].1)
}

/// Flagged lines start with the prefix; the others are as `unflagged_ok`.
pub open spec fn lines_ok(r: Seq<(bool, Seq<char>)>, prefix: Seq<char>) -> bool {
    &&& forall|i: int| 0 <= i < r.len() && (#[trigger] r[i]).0 ==> starts_with(r[i].1, prefix)
    &&& unflagged_ok(r)
}

/// Every line flagged for the prefix starts with it; every other line is a
/// comment or blank.
pub open spec fn prefixed_lines(r: Seq<(bool, Seq<char>)>, prefix: Seq<char>) -> bool {
    forall|i: int|
        0 <= i < r.len() ==> ((#[trigger] r[i]).0 ==> starts_with(r[i].1, prefix)) && (!r[i].0
            ==> passthrough(r[i].1))
}

/// The unit that `compile_group` hoists `cs` into.
pub open spec fn hoisted_unit(fs: FunctionCompilerState, cs: Seq<CommandView>) -> (Seq<char>, FunctionView) {
    let p = hoisted_path(fs.path_view(), fs.uid());
    (p, FunctionView { commands: cs, name: p, namespace: fs.namespace_view() })
}

/// Whether a character is whitespace.
pub fn is_whitespace(c: char) -> (r: bool)
    ensures
        r == is_space(c),
{
    c == ' ' || c == '\t' || c == '\n' || c == '\x0B' || c == '\x0C' || c == '\r' || c == '\u{85}'
        || c == '\u{A0}' || c == '\u{1680}' || ('\u{2000}' <= c && c <= '\u{200A}') || c
        == '\u{2028}' || c == '\u{2029}' || c == '\u{202F}' || c == '\u{205F}' || c == '\u{3000}'
}

/// Whether a compiled line is a comment or blank.
pub fn is_passthrough(s: &str) -> (r: bool)
    ensures
        r == passthrough(s@),
{
    let n = s.unicode_len();
    if n > 0 && s.get_char(0) == '#' {
        return true;
    }
    let mut i: usize = 0;
    while i < n
        invariant
            n == s@.len(),
            i <= n,
            !(s@.len() > 0 && s@[0] == '#'),
            forall|j: int| 0 <= j < i ==> is_space(#[trigger] s@[j]),
        decreases n - i,
    {
        if !is_whitespace(s.get_char(i)) {
            return false;
        }
        i = i + 1;
    }
    true
}

/// Combine a prefix with a compiled line, leaving comments and blanks as
/// they are. The flag tells whether the prefix was used.
pub fn map_run_cmd(cmd: String, prefix: &str) -> (r: (bool, String))
    ensures
        passthrough(cmd@) ==> !r.0 && r.1@ == cmd@,
        !passthrough(cmd@) ==> r.0 && r.1@ == prefix@ + "run "@ + cmd@,
{
    if is_passthrough(cmd.as_str()) {
        (false, cmd)
    } else {
        (true, join3(prefix, "run ", cmd.as_str()))
    }
}

/// The path of the unit to hoist into, for the function being compiled and
/// the id `uid`.
fn hoisted_unit_path(fs: &FunctionCompilerState, uid: usize) -> (r: String)
    ensures
        r@ == hoisted_path(fs.path_view(), uid as nat),
{
    proof {
        reveal_strlit("sb/");
    }
    let p = fs.path();
    let base: &str = if has_prefix(p, "sb/") {
        p.substring_char(3, p.unicode_len())
    } else {
        p
    };
    let hash = md5_hex(join3(base, ":", decimal(uid).as_str()).as_str());
    join2(join3("sb/", base, "/").as_str(), hash.as_str().substring_char(0, 16))
}

/// The line count of a group's children for the hoisting decision, capped at 2.
fn group_count(cs: &Vec<Command>, options: &CompileOptions) -> (r: usize)
    requires
        1 + seq_size(commands_view(cs@)) <= usize::MAX,
    ensures
        no_execute(commands_view(cs@)) ==> (r > 1 <==> known_total(commands_view(cs@), options.debug) > 1),
        no_execute(commands_view(cs@)) && r <= 1 ==> r == known_total(commands_view(cs@), options.debug),
        all_counted(commands_view(cs@), options.debug) ==> (r > 1 <==> count_total(commands_view(cs@), options.debug) > 1),
        all_counted(commands_view(cs@), options.debug) && r <= 1 ==> r == count_total(commands_view(cs@), options.debug),
        r > 1 <==> group_total(commands_view(cs@), *options) > 1,
        r <= 1 ==> r == group_total(commands_view(cs@), *options),
    decreases 1 + seq_size(commands_view(cs@)), 3nat,
{
    let ghost cv = commands_view(cs@);
    proof {
        lemma_commands_view(cs@);
    }
    let mut total: usize = 0;
    let mut i: usize = 0;
    while i < cs.len()
        invariant
            i <= cs@.len(),
            cv == commands_view(cs@),
            cv.len() == cs@.len(),
            forall|k: int| 0 <= k < cs@.len() ==> #[trigger] cv[k] == command_view(cs@[k]),
            1 + seq_size(cv) <= usize::MAX,
            total <= 1,
            no_execute(cv) && total <= 1 ==> total == known_total(cv.take(i as int), options.debug),
            no_execute(cv) && total > 1 ==> known_total(cv.take(i as int), options.debug) > 1,
            all_counted(cv, options.debug) && total <= 1 ==> total == count_total(cv.take(i as int), options.debug),
            all_counted(cv, options.debug) && total > 1 ==> count_total(cv.take(i as int), options.debug) > 1,
            total <= 1 ==> total == group_total(cv.take(i as int), *options),
            total > 1 ==> group_total(cv.take(i as int), *options) > 1,
        decreases cs.len() - i,
    {
        proof {
            lemma_seq_size_take(cv, i as int);
            assert(cv.take(i + 1).drop_last() =~= cv.take(i as int));
        }
        let c = cs[i].get_count(options);
        if c > 1 {
            total = 2;
        } else {
            total = total + c;
        }
        i = i + 1;
        if total > 1 {
            proof {
                assert(no_execute(cv) ==> known_total(cv.take(i as int), options.debug) > 1);
                lemma_known_total_mono(cv, i as int);
                lemma_count_total_mono(cv, i as int, options.debug);
                lemma_group_total_mono(cv, i as int, *options);
            }
            return total;
        }
    }
    assert(cv.take(i as int) =~= cv);
    total
}

proof fn lemma_known_total_mono(s: Seq<CommandView>, i: int)
    requires
        0 <= i <= s.len(),
    ensures
        known_total(s.take(i), true) <= known_total(s, true),
        known_total(s.take(i), false) <= known_total(s, false),
    decreases s.len(),
{
    if i < s.len() {
        assert(s.drop_last().take(i) =~= s.take(i));
        lemma_known_total_mono(s.drop_last(), i);
    } else {
        assert(s.take(i) =~= s);
    }
}

impl Command {
    /// Compile the command into lines.
    pub fn compile(
        &self,
        options: &CompileOptions,
        global_state: &CompilerState,
        function_state: &mut FunctionCompilerState,
    ) -> (r: Vec<String>)
        requires
            old(function_state).uid() + cmd_size(self@) <= usize::MAX,
        ensures
            advances(*old(function_state), *final(function_state), cmd_size(self@)),
            is_plain(self@) ==> strs(r@) == plain_lines(self@, options.debug) && *final(function_state)
                == *old(function_state),
            self@ is Group ==> group_compiled(*old(function_state), *final(function_state), self@->Group_0, options.debug, r@),
            (self@ is Execute && !(self@->Execute_0 is Run) && stateless(self@->Execute_0, false, options.debug)) ==> strs(r@)
                == stateless_lines(self@->Execute_0, "execute "@, false, options.debug).map_values(
                |p: (bool, Seq<char>)| p.1,
            ) && *final(function_state) == *old(function_state),
            (strs(r@), final(function_state).model()) == cmd_c(self@, *options, old(function_state).model()),
        decreases cmd_size(self@), 5nat,
    {
        match self {
            Command::Raw(s) => lines(s.as_str()),
            Command::Debug(m) => compile_debug(m.as_str(), options),
            Command::Execute(e) => e.compile(options, global_state, function_state),
            Command::Group(cs) => compile_group(cs, options, global_state, function_state),
            Command::Comment(s) => {
                let mut v: Vec<String> = Vec::new();
                v.push(join2("#", s.as_str()));
                assert(strs(v@) =~= plain_lines(self@, options.debug));
                v
            },
        }
    }

    /// The number of lines this command counts for when deciding whether a
    /// group is hoisted.
    pub fn get_count(&self, options: &CompileOptions) -> (r: usize)
        requires
            cmd_size(self@) <= usize::MAX,
        ensures
            !(self@ is Execute) ==> r == known_count(self@, options.debug),
            counted(self@, options.debug) ==> r == line_count(self@, options.debug),
            r == cmd_count(self@, *options),
        decreases cmd_size(self@), 5nat,
    {
        match self {
            Command::Comment(_) => 0,
            Command::Debug(_) => if options.debug {
                1
            } else {
                0
            },
            Command::Raw(s) => lines(s.as_str()).len(),
            Command::Execute(e) => e.get_count(options),
            Command::Group(_) => 1,
        }
    }
}

/// What compiling a group does: hoisted when its count exceeds one line,
/// inline otherwise.
pub open spec fn group_compiled(
    a: FunctionCompilerState,
    b: FunctionCompilerState,
    cs: Seq<CommandView>,
    debug: bool,
    r: Seq<String>,
) -> bool {
    &&& (no_execute(cs) && known_total(cs, debug) > 1) ==> {
        &&& strs(r) == seq![call_line(a.namespace_view(), hoisted_path(a.path_view(), a.uid()))]
        &&& b.queue() == a.queue().push(hoisted_unit(a, cs))
        &&& b.uid() == a.uid() + 1
    }
    &&& (all_plain(cs) && known_total(cs, debug) <= 1) ==> strs(r) == plain_seq_lines(cs, debug) && b == a
    &&& (all_counted(cs, debug) && count_total(cs, debug) > 1) ==> {
        &&& strs(r) == seq![call_line(a.namespace_view(), hoisted_path(a.path_view(), a.uid()))]
        &&& b.queue() == a.queue().push(hoisted_unit(a, cs))
        &&& b.uid() == a.uid() + 1
    }
    &&& (all_simple(cs, debug) && count_total(cs, debug) <= 1) ==> strs(r) == simple_seq_lines(cs, debug) && b == a
}

fn compile_debug(message: &str, options: &CompileOptions) -> (r: Vec<String>)
    ensures
        strs(r@) == plain_lines(CommandView::Debug(message@), options.debug),
{
    let mut v: Vec<String> = Vec::new();
    if options.debug {
        v.push(join3(DEBUG_OPEN, message, DEBUG_CLOSE));
    }
    assert(strs(v@) =~= plain_lines(CommandView::Debug(message@), options.debug));
    v
}

/// Compile a group: hoisted into a new function when its commands count
/// for more than one line, else compiled in place.
pub fn compile_group(
    commands: &Vec<Command>,
    options: &CompileOptions,
    global_state: &CompilerState,
    function_state: &mut FunctionCompilerState,
) -> (r: Vec<String>)
    requires
        old(function_state).uid() + 1 + seq_size(commands_view(commands@)) <= usize::MAX,
    ensures
        advances(*old(function_state), *final(function_state), 1 + seq_size(commands_view(commands@))),
        group_compiled(*old(function_state), *final(function_state), commands_view(commands@), options.debug, r@),
        (strs(r@), final(function_state).model()) == group_c(commands_view(commands@), *options, old(function_state).model()),
    decreases 1 + seq_size(commands_view(commands@)), 4nat,
{
    let count = group_count(commands, options);
    if count > 1 {
        let uid = function_state.request_uid();
        let path = hoisted_unit_path(function_state, uid);
        let function = Function::with_commands(function_state.namespace(), path.as_str(), commands);
        let line = join3("function ", function_state.namespace(), join2(":", path.as_str()).as_str());
        assert(line@ =~= call_line(function_state.namespace_view(), path@));
        let ghost q0 = function_state.queue();
        function_state.add_function(path.as_str(), function);
        proof {
            lemma_queue_weight_push(q0, (path@, function@));
        }
        let mut v: Vec<String> = Vec::new();
        v.push(line);
        assert(strs(v@) =~= seq![line@]);
        v
    } else {
        compile_commands(commands, options, global_state, function_state)
    }
}

/// Compile each command in order and concatenate their lines.
pub fn compile_commands(
    commands: &Vec<Command>,
    options: &CompileOptions,
    global_state: &CompilerState,
    function_state: &mut FunctionCompilerState,
) -> (r: Vec<String>)
    requires
        old(function_state).uid() + seq_size(commands_view(commands@)) <= usize::MAX,
    ensures
        advances(*old(function_state), *final(function_state), seq_size(commands_view(commands@))),
        all_plain(commands_view(commands@)) ==> strs(r@) == plain_seq_lines(commands_view(commands@), options.debug)
            && *final(function_state) == *old(function_state),
        all_simple(commands_view(commands@), options.debug) ==> strs(r@) == simple_seq_lines(
            commands_view(commands@),
            options.debug,
        ) && *final(function_state) == *old(function_state),
        (strs(r@), final(function_state).model()) == seq_c(commands_view(commands@), *options, old(function_state).model()),
    decreases seq_size(commands_view(commands@)), 6nat,
{
    let ghost cv = commands_view(commands@);
    let ghost start = *function_state;
    proof {
        lemma_commands_view(commands@);
    }
    let mut out: Vec<String> = Vec::new();
    let mut i: usize = 0;
    assert(cv.take(0) =~= Seq::<CommandView>::empty());
    assert(strs(out@) =~= Seq::<Seq<char>>::empty());
    while i < commands.len()
        invariant
            i <= commands@.len(),
            cv == commands_view(commands@),
            cv.len() == commands@.len(),
            forall|k: int| 0 <= k < commands@.len() ==> #[trigger] cv[k] == command_view(commands@[k]),
            start.uid() + seq_size(cv) <= usize::MAX,
            advances(start, *function_state, seq_size(cv.take(i as int))),
            all_plain(cv) ==> strs(out@) == plain_seq_lines(cv.take(i as int), options.debug)
                && *function_state == start,
            all_simple(cv, options.debug) ==> strs(out@) == simple_seq_lines(cv.take(i as int), options.debug)
                && *function_state == start,
            (strs(out@), function_state.model()) == seq_c(cv.take(i as int), *options, start.model()),
        decreases commands.len() - i,
    {
        proof {
            lemma_seq_size_take(cv, i as int);
            assert(cv.take(i + 1).drop_last() =~= cv.take(i as int));
        }
        let part = commands[i].compile(options, global_state, function_state);
        let ghost before = out@;
        let mut part = part;
        let ghost pv = part@;
        out.append(&mut part);
        proof {
            assert(strs(out@) =~= strs(before) + strs(pv));
        }
        i = i + 1;
    }
    assert(cv.take(i as int) =~= cv);
    out
}

impl Execute {
    /// Compile the execute command into lines. A bare `Run` compiles to its
    /// command's lines alone; every line of any other chain starts with
    /// `execute `, but for comments, blank lines and the lines that clear a
    /// success flag.
    pub fn compile(
        &self,
        options: &CompileOptions,
        global_state: &CompilerState,
        function_state: &mut FunctionCompilerState,
    ) -> (r: Vec<String>)
        requires
            old(function_state).uid() + 1 + exe_size(self@) <= usize::MAX,
        ensures
            advances(*old(function_state), *final(function_state), 1 + exe_size(self@)),
            (self@ is Run && is_plain(*self@->Run_0)) ==> strs(r@) == plain_lines(*self@->Run_0, options.debug),
            (self@ is Run && *self@->Run_0 is Execute && !((*self@->Run_0)->Execute_0 is Run) && stateless(
                (*self@->Run_0)->Execute_0,
                false,
                options.debug,
            )) ==> strs(r@) == stateless_lines((*self@->Run_0)->Execute_0, "execute "@, false, options.debug).map_values(
                |p: (bool, Seq<char>)| p.1,
            ) && *final(function_state) == *old(function_state),
            (!(self@ is Run) && stateless(self@, false, options.debug)) ==> strs(r@) == stateless_lines(
                self@,
                "execute "@,
                false,
                options.debug,
            ).map_values(|p: (bool, Seq<char>)| p.1) && *final(function_state) == *old(function_state),
            (strs(r@), final(function_state).model()) == root_c(self@, *options, old(function_state).model()),
            !(self@ is Run) ==> forall|i: int|
                0 <= i < r@.len() ==> starts_with(#[trigger] r@[i]@, "execute "@) || passthrough(r@[i]@) || cleanup_line(
                    r@[i]@,
                ),
        decreases 1 + exe_size(self@), 4nat,
    {
        match self {
            Execute::Run(cmd) => cmd.compile(options, global_state, function_state),
            _ => {
                let flagged_lines = self.compile_internal(owned("execute "), false, options, global_state, function_state);
                let mut out: Vec<String> = Vec::new();
                let mut i: usize = 0;
                while i < flagged_lines.len()
                    invariant
                        i <= flagged_lines@.len(),
                        out@.len() == i,
                        strs(out@) == flagged(flagged_lines@).take(i as int).map_values(|p: (bool, Seq<char>)| p.1),
                        forall|k: int| 0 <= k < i ==> #[trigger] out@[k]@ == flagged_lines@[k].1@,
                    decreases flagged_lines.len() - i,
                {
                    let line = flagged_lines[i].1.clone();
                    proof {
                        assert(strs(out@.push(line)) =~= strs(out@).push(line@));
                        assert(flagged(flagged_lines@).take(i + 1).map_values(|p: (bool, Seq<char>)| p.1) =~= flagged(
                            flagged_lines@,
                        ).take(i as int).map_values(|p: (bool, Seq<char>)| p.1).push(flagged_lines@[i as int].1@));
                    }
                    out.push(line);
                    i = i + 1;
                }
                assert(flagged(flagged_lines@).take(i as int) =~= flagged(flagged_lines@));
                assert(strs(out@) == flagged(flagged_lines@).map_values(|p: (bool, Seq<char>)| p.1));
                proof {
                    let fl = flagged(flagged_lines@);
                    assert forall|k: int| 0 <= k < out@.len() implies starts_with(#[trigger] out@[k]@, "execute "@) || passthrough(
                        out@[k]@,
                    ) || cleanup_line(out@[k]@) by {
                        assert(fl[k] == (flagged_lines@[k].0, flagged_lines@[k].1@));
                        assert(out@[k]@ == strs(out@)[k]);
                    }
                }
                out
            },
        }
    }

    /// Compile the execute chain into lines after `prefix`; each flag tells
    /// whether the line carries the prefix.
    pub fn compile_internal(
        &self,
        prefix: String,
        require_grouping: bool,
        options: &CompileOptions,
        global_state: &CompilerState,
        function_state: &mut FunctionCompilerState,
    ) -> (r: Vec<(bool, String)>)
        requires
            old(function_state).uid() + exe_size(self@) <= usize::MAX,
        ensures
            advances(*old(function_state), *final(function_state), exe_size(self@)),
            no_if(self@) ==> prefixed_lines(flagged(r@), prefix@),
            lines_ok(flagged(r@), prefix@),
            (flagged(r@), final(function_state).model()) == exe_c(
                self@,
                prefix@,
                require_grouping,
                *options,
                old(function_state).model(),
            ),
            (self@ is Run && is_plain(*self@->Run_0)) ==> r@.len() == plain_lines(*self@->Run_0, options.debug).len(),
            stateless(self@, require_grouping, options.debug) ==> flagged(r@) == stateless_lines(
                self@,
                prefix@,
                require_grouping,
                options.debug,
            ) && *final(function_state) == *old(function_state),
        decreases exe_size(self@), 3nat,
    {
        match self {
            Execute::Align(arg, next) | Execute::Anchored(arg, next) | Execute::As(arg, next)
            | Execute::At(arg, next) | Execute::Facing(arg, next) | Execute::In(arg, next)
            | Execute::On(arg, next) | Execute::Positioned(arg, next) | Execute::Rotated(arg, next)
            | Execute::Store(arg, next) => {
                let p = join2(join3(prefix.as_str(), self.variant_name(), " ").as_str(), join2(arg.as_str(), " ").as_str());
                proof {
                    lemma_step_names(*self);
                    assert(p@ =~= prefix@ + step_text(self@->Step_0, arg@));
                }
                let r = next.compile_internal(p, require_grouping, options, global_state, function_state);
                proof {
                    assert(p@.subrange(0, prefix@.len() as int) =~= prefix@);
                    lemma_prefixed_extend(flagged(r@), prefix@, p@);
                }
                r
            },
            Execute::AsAt(selector, next) => {
                let p = join3(join2(prefix.as_str(), "as ").as_str(), selector.as_str(), " at @s ");
                proof {
                    lemma_step_names(*self);
                    assert(p@ =~= prefix@ + step_text(self@->Step_0, selector@));
                }
                let r = next.compile_internal(p, require_grouping, options, global_state, function_state);
                proof {
                    assert(p@.subrange(0, prefix@.len() as int) =~= prefix@);
                    lemma_prefixed_extend(flagged(r@), prefix@, p@);
                }
                r
            },
            Execute::Summon(arg, next) => {
                let p = join2(join3(prefix.as_str(), "summon", " ").as_str(), join2(arg.as_str(), " ").as_str());
                proof {
                    lemma_step_names(*self);
                    assert(p@ =~= prefix@ + step_text(self@->Step_0, arg@));
                }
                let r = next.compile_internal(p, true, options, global_state, function_state);
                proof {
                    assert(p@.subrange(0, prefix@.len() as int) =~= prefix@);
                    lemma_prefixed_extend(flagged(r@), prefix@, p@);
                }
                r
            },
            Execute::If(cond, then, el) => {
                let el_ref = Execute::else_ref(el);
                proof {
                    lemma_if_size(*cond, *then, *el);
                }
                compile_if_cond(cond, then, el_ref, prefix.as_str(), options, global_state, function_state)
            },
            Execute::Run(command) => match &**command {
                Command::Execute(ex) => {
                    proof {
                        lemma_run_execute_size(*ex);
                    }
                    ex.compile_internal(prefix, require_grouping, options, global_state, function_state)
                },
                command => {
                    let lines = command.compile(options, global_state, function_state);
                    map_run_lines(lines, prefix.as_str())
                },
            },
            Execute::Runs(commands) => {
                if !require_grouping {
                    let lines = compile_commands(commands, options, global_state, function_state);
                    map_run_lines(lines, prefix.as_str())
                } else {
                    let lines = compile_group(commands, options, global_state, function_state);
                    map_run_lines(lines, prefix.as_str())
                }
            },
        }
    }

    /// The number of lines the execute chain compiles to on its own.
    pub fn get_count(&self, options: &CompileOptions) -> (r: usize)
        requires
            exe_size(self@) <= usize::MAX,
        ensures
            (self@ is Run && is_plain(*self@->Run_0)) ==> r == plain_lines(*self@->Run_0, options.debug).len(),
            stateless(self@, false, options.debug) ==> r == stateless_lines(self@, Seq::empty(), false, options.debug).len(),
            r == exe_count(self@, *options),
        decreases exe_size(self@), 4nat,
    {
        let mut state = FunctionCompilerState::new("[INTERNAL]", "[INTERNAL]", ExtendableQueue::new());
        assert(state.queue() =~= Seq::<(Seq<char>, FunctionView)>::empty());
        assert(state.model() == fresh_state());
        let global_state = CompilerState {};
        self.compile_internal(String::new(), false, options, &global_state, &mut state).len()
    }

    /// The variant name of the execute command.
    pub fn variant_name(&self) -> (r: &'static str)
        ensures
            self@ is Step ==> r@ == self@->Step_0,
    {
        match self {
            Execute::Align(..) => "align",
            Execute::Anchored(..) => "anchored",
            Execute::As(..) => "as",
            Execute::At(..) => "at",
            Execute::AsAt(..) => "as_at",
            Execute::Facing(..) => "facing",
            Execute::In(..) => "in",
            Execute::On(..) => "on",
            Execute::Positioned(..) => "positioned",
            Execute::Rotated(..) => "rotated",
            Execute::Store(..) => "store",
            Execute::Summon(..) => "summon",
            Execute::If(..) => "if",
            Execute::Run(..) => "run",
            Execute::Runs(..) => "runs",
        }
    }
}

proof fn lemma_step_names(e: Execute)
    ensures
        e@ is Step ==> ((e@->Step_0 == "as_at"@) <==> e is AsAt),
        e@ is Step ==> ((e@->Step_0 == "summon"@) <==> e is Summon),
{
    reveal_strlit("summon");
    reveal_strlit("as_at");
    reveal_strlit("align");
    reveal_strlit("anchored");
    reveal_strlit("as");
    reveal_strlit("at");
    reveal_strlit("facing");
    reveal_strlit("in");
    reveal_strlit("on");
    reveal_strlit("positioned");
    reveal_strlit("rotated");
    reveal_strlit("store");
    match e {
        Execute::Align(..) => {
            assert("align"@[1] != "as_at"@[1]);
            assert("align"@.len() != "summon"@.len());
        },
        Execute::Store(..) => {
            assert("store"@[0] != "as_at"@[0]);
            assert("store"@.len() != "summon"@.len());
        },
        Execute::Facing(..) => {
            assert("facing"@.len() != "as_at"@.len());
            assert("facing"@[0] != "summon"@[0]);
        },
        Execute::Anchored(..) => {
            assert("anchored"@.len() != "as_at"@.len());
            assert("anchored"@.len() != "summon"@.len());
        },
        Execute::As(..) => {
            assert("as"@.len() != "as_at"@.len());
            assert("as"@.len() != "summon"@.len());
        },
        Execute::At(..) => {
            assert("at"@.len() != "as_at"@.len());
            assert("at"@.len() != "summon"@.len());
        },
        Execute::In(..) => {
            assert("in"@.len() != "as_at"@.len());
            assert("in"@.len() != "summon"@.len());
        },
        Execute::On(..) => {
            assert("on"@.len() != "as_at"@.len());
            assert("on"@.len() != "summon"@.len());
        },
        Execute::Positioned(..) => {
            assert("positioned"@.len() != "as_at"@.len());
            assert("positioned"@.len() != "summon"@.len());
        },
        Execute::Rotated(..) => {
            assert("rotated"@.len() != "as_at"@.len());
            assert("rotated"@.len() != "summon"@.len());
        },
        Execute::AsAt(..) => {
            assert("as_at"@.len() != "summon"@.len());
        },
        Execute::Summon(..) => {
            assert("as_at"@.len() != "summon"@.len());
        },
        _ => {},
    }
}

proof fn lemma_prefixed_extend(r: Seq<(bool, Seq<char>)>, prefix: Seq<char>, longer: Seq<char>)
    requires
        starts_with(longer, prefix),
    ensures
        prefixed_lines(r, longer) ==> prefixed_lines(r, prefix),
        lines_ok(r, longer) ==> lines_ok(r, prefix),
{
    if lines_ok(r, longer) {
        assert forall|i: int| 0 <= i < r.len() && (#[trigger] r[i]).0 implies starts_with(r[i].1, prefix) by {
            assert(r[i].1.subrange(0, prefix.len() as int) =~= longer.subrange(0, prefix.len() as int));
        }
    }
    if prefixed_lines(r, longer) {
        assert forall|i: int| 0 <= i < r.len() && (#[trigger] r[i]).0 implies starts_with(r[i].1, prefix) by {
            assert(r[i].1.subrange(0, prefix.len() as int) =~= longer.subrange(0, prefix.len() as int));
        }
    }
}

/// Each line combined with the prefix by `map_run_cmd`.
fn map_run_lines(lines: Vec<String>, prefix: &str) -> (r: Vec<(bool, String)>)
    ensures
        prefixed_lines(flagged(r@), prefix@),
        r@.len() == lines@.len(),
        flagged(r@) == run_lines(strs(lines@), prefix@),
        lines_ok(flagged(r@), prefix@),
{
    let mut out: Vec<(bool, String)> = Vec::new();
    let mut i: usize = 0;
    while i < lines.len()
        invariant
            i <= lines@.len(),
            out@.len() == i,
            prefixed_lines(flagged(out@), prefix@),
            flagged(out@) == run_lines(strs(lines@).take(i as int), prefix@),
        decreases lines.len() - i,
    {
        let line = lines[i].clone();
        let m = map_run_cmd(line, prefix);
        proof {
            if m.0 {
                assert(m.1@.subrange(0, prefix@.len() as int) =~= prefix@);
            }
            assert(flagged(out@.push(m)) =~= flagged(out@).push((m.0, m.1@)));
            assert(run_lines(strs(lines@).take(i + 1), prefix@) =~= run_lines(strs(lines@).take(i as int), prefix@).push(
                run_line(prefix@, lines@[i as int]@),
            ));
        }
        out.push(m);
        i = i + 1;
    }
    assert(strs(lines@).take(i as int) =~= strs(lines@));
    assert forall|k: int| 0 <= k < flagged(out@).len() && !(#[trigger] flagged(out@)[k]).0 implies passthrough(
        flagged(out@)[k].1,
    ) || cleanup_line(flagged(out@)[k].1) by {}
    out
}

} // verus!
