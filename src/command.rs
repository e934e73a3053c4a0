//! The instruction tree: commands, execute chains, their mathematical views
//! and the size measure that bounds the compiler's recursion.

use vstd::prelude::*;
use vstd::string::*;
use crate::condition::Condition;

verus! {

broadcast use vstd::std_specs::vec::group_vec_axioms;

/// Represents a command that can be included in a function.
#[derive(Debug, PartialEq, Eq, Hash)]
pub enum Command {
    /// A command that is already formatted as a string.
    Raw(String),
    /// Message to be printed only in debug mode
    Debug(String),
    /// Execute command
    Execute(Execute),
    /// Group of commands to be called instantly after each other
    Group(Vec<Command>),
    /// Comment to be added to the function
    Comment(String),
}

/// Execute command with all its variants.
#[derive(Debug, PartialEq, Eq, Hash)]
pub enum Execute {
    Align(String, Box<Execute>),
    Anchored(String, Box<Execute>),
    As(String, Box<Execute>),
    At(String, Box<Execute>),
    AsAt(String, Box<Execute>),
    Facing(String, Box<Execute>),
    In(String, Box<Execute>),
    On(String, Box<Execute>),
    Positioned(String, Box<Execute>),
    Rotated(String, Box<Execute>),
    Store(String, Box<Execute>),
    Summon(String, Box<Execute>),
    If(Condition, Box<Execute>, Option<Box<Execute>>),
    Run(Box<Command>),
    Runs(Vec<Command>),
}

/// A command with its texts as character sequences.
pub enum CommandView {
    Raw(Seq<char>),
    Debug(Seq<char>),
    Execute(ExecuteView),
    Group(Seq<CommandView>),
    Comment(Seq<char>),
}

/// An execute chain with its texts as character sequences; a modifier is
/// its variant name and its argument.
pub enum ExecuteView {
    Step(Seq<char>, Seq<char>, Box<ExecuteView>),
    If(Condition, Box<ExecuteView>, Option<Box<ExecuteView>>),
    Run(Box<CommandView>),
    Runs(Seq<CommandView>),
}

pub open spec fn command_view(c: Command) -> CommandView
    decreases c,
{
    match c {
        Command::Raw(s) => CommandView::Raw(s@),
        Command::Debug(s) => CommandView::Debug(s@),
        Command::Execute(e) => CommandView::Execute(execute_view(e)),
        Command::Group(cs) => CommandView::Group(commands_view(cs@)),
        Command::Comment(s) => CommandView::Comment(s@),
    }
}

pub open spec fn commands_view(s: Seq<Command>) -> Seq<CommandView>
    decreases s,
{
    if s.len() == 0 {
        Seq::empty()
    } else {
        commands_view(s.drop_last()).push(command_view(s.last()))
    }
}

pub open spec fn execute_view(e: Execute) -> ExecuteView
    decreases e,
{
    match e {
        Execute::Align(a, n) => ExecuteView::Step("align"@, a@, Box::new(execute_view(*n))),
        Execute::Anchored(a, n) => ExecuteView::Step("anchored"@, a@, Box::new(execute_view(*n))),
        Execute::As(a, n) => ExecuteView::Step("as"@, a@, Box::new(execute_view(*n))),
        Execute::At(a, n) => ExecuteView::Step("at"@, a@, Box::new(execute_view(*n))),
        Execute::AsAt(a, n) => ExecuteView::Step("as_at"@, a@, Box::new(execute_view(*n))),
        Execute::Facing(a, n) => ExecuteView::Step("facing"@, a@, Box::new(execute_view(*n))),
        Execute::In(a, n) => ExecuteView::Step("in"@, a@, Box::new(execute_view(*n))),
        Execute::On(a, n) => ExecuteView::Step("on"@, a@, Box::new(execute_view(*n))),
        Execute::Positioned(a, n) => ExecuteView::Step("positioned"@, a@, Box::new(execute_view(*n))),
        Execute::Rotated(a, n) => ExecuteView::Step("rotated"@, a@, Box::new(execute_view(*n))),
        Execute::Store(a, n) => ExecuteView::Step("store"@, a@, Box::new(execute_view(*n))),
        Execute::Summon(a, n) => ExecuteView::Step("summon"@, a@, Box::new(execute_view(*n))),
        Execute::If(c, t, el) => ExecuteView::If(
            c,
            Box::new(execute_view(*t)),
            match el {
                Some(x) => Some(Box::new(execute_view(*x))),
                None => None,
            },
        ),
        Execute::Run(c) => ExecuteView::Run(Box::new(command_view(*c))),
        Execute::Runs(cs) => ExecuteView::Runs(commands_view(cs@)),
    }
}

impl View for Command {
    type V = CommandView;

    open spec fn view(&self) -> CommandView {
        command_view(*self)
    }
}

impl View for Execute {
    type V = ExecuteView;

    open spec fn view(&self) -> ExecuteView {
        execute_view(*self)
    }
}

pub proof fn lemma_commands_view(s: Seq<Command>)
    ensures
        commands_view(s).len() == s.len(),
        forall|i: int| 0 <= i < s.len() ==> #[trigger] commands_view(s)[i] == command_view(s[i]),
    decreases s.len(),
{
    if s.len() > 0 {
        lemma_commands_view(s.drop_last());
    }
}

pub proof fn lemma_commands_view_push(s: Seq<Command>, c: Command)
    ensures
        commands_view(s.push(c)) == commands_view(s).push(command_view(c)),
{
    assert(s.push(c).drop_last() =~= s);
}

pub proof fn lemma_commands_view_concat(s: Seq<Command>, t: Seq<Command>)
    ensures
        commands_view(s + t) == commands_view(s) + commands_view(t),
    decreases t.len(),
{
    if t.len() == 0 {
        assert(s + t =~= s);
        assert(commands_view(s) + commands_view(t) =~= commands_view(s));
    } else {
        lemma_commands_view_concat(s, t.drop_last());
        assert((s + t).drop_last() =~= s + t.drop_last());
        assert(commands_view(s + t) =~= commands_view(s) + commands_view(t));
    }
}

/// Size of a command, counting the nodes that compile by recursion; texts
/// weigh nothing.
pub open spec fn cmd_size(c: CommandView) -> nat
    decreases c,
{
    match c {
        CommandView::Execute(e) => 1 + exe_size(e),
        CommandView::Group(cs) => 1 + seq_size(cs),
        _ => 0,
    }
}

pub open spec fn seq_size(s: Seq<CommandView>) -> nat
    decreases s,
{
    if s.len() == 0 {
        0
    } else {
        seq_size(s.drop_last()) + cmd_size(s.last())
    }
}

pub open spec fn opt_size(e: Option<Box<ExecuteView>>) -> nat
    decreases e,
{
    match e {
        Some(x) => exe_size(*x),
        None => 0,
    }
}

pub open spec fn exe_size(e: ExecuteView) -> nat
    decreases e,
{
    match e {
        ExecuteView::Step(_, _, n) => 1 + exe_size(*n),
        ExecuteView::If(_, t, el) => 4 + exe_size(*t) + opt_size(el),
        ExecuteView::Run(c) => 1 + cmd_size(*c),
        ExecuteView::Runs(cs) => 2 + seq_size(cs),
    }
}

/// The size of an optional else branch, by reference.
pub open spec fn opt_ref_size(el: Option<&Execute>) -> nat {
    match el {
        Some(x) => exe_size(x@),
        None => 0,
    }
}

/// The size of an optional boxed else branch.
pub open spec fn opt_box_size(el: Option<Box<Execute>>) -> nat {
    match el {
        Some(x) => exe_size(execute_view(*x)),
        None => 0,
    }
}

pub proof fn lemma_if_size(c: Condition, t: Box<Execute>, el: Option<Box<Execute>>)
    ensures
        exe_size(execute_view(Execute::If(c, t, el))) == 4 + exe_size(execute_view(*t)) + opt_box_size(el),
{
    match el {
        Some(x) => {
            let v = ExecuteView::If(c, Box::new(execute_view(*t)), Some(Box::new(execute_view(*x))));
            assert(execute_view(Execute::If(c, t, Some(x))) == v);
            assert(opt_size(Some(Box::new(execute_view(*x)))) == exe_size(execute_view(*x)));
        },
        None => {
            let v = ExecuteView::If(c, Box::new(execute_view(*t)), None);
            assert(execute_view(Execute::If(c, t, None)) == v);
            assert(opt_size(None) == 0);
        },
    }
}

pub proof fn lemma_run_execute_size(ex: Execute)
    ensures
        exe_size(execute_view(Execute::Run(Box::new(Command::Execute(ex))))) == 2 + exe_size(execute_view(ex)),
{
    assert(command_view(Command::Execute(ex)) == CommandView::Execute(execute_view(ex)));
    assert(cmd_size(CommandView::Execute(execute_view(ex))) == 1 + exe_size(execute_view(ex)));
}

impl Execute {
    /// The else branch, borrowed.
    pub fn else_ref(el: &Option<Box<Execute>>) -> (r: Option<&Execute>)
        ensures
            opt_ref_size(r) == opt_box_size(*el),
            r is None <==> el is None,
            r matches Some(x) ==> x@ == execute_view(*el->Some_0),
    {
        match el {
            Some(x) => Some(&**x),
            None => None,
        }
    }
}

pub proof fn lemma_seq_size_push(s: Seq<CommandView>, c: CommandView)
    ensures
        seq_size(s.push(c)) == seq_size(s) + cmd_size(c),
{
    assert(s.push(c).drop_last() =~= s);
}

pub proof fn lemma_seq_size_concat(s: Seq<CommandView>, t: Seq<CommandView>)
    ensures
        seq_size(s + t) == seq_size(s) + seq_size(t),
    decreases t.len(),
{
    if t.len() == 0 {
        assert(s + t =~= s);
    } else {
        lemma_seq_size_concat(s, t.drop_last());
        assert((s + t).drop_last() =~= s + t.drop_last());
    }
}

pub proof fn lemma_seq_size_take(s: Seq<CommandView>, i: int)
    requires
        0 <= i < s.len(),
    ensures
        seq_size(s.take(i + 1)) == seq_size(s.take(i)) + cmd_size(s[i]),
        seq_size(s.take(i + 1)) <= seq_size(s),
    decreases s.len(),
{
    assert(s.take(i + 1).drop_last() =~= s.take(i));
    lemma_seq_size_concat(s.take(i + 1), s.skip(i + 1));
    assert(s.take(i + 1) + s.skip(i + 1) =~= s);
}

/// A leaf command: compiles to a fixed text without any state.
pub open spec fn is_plain(c: CommandView) -> bool {
    c is Raw || c is Debug || c is Comment
}

pub open spec fn all_plain(s: Seq<CommandView>) -> bool {
    forall|i: int| 0 <= i < s.len() ==> is_plain(#[trigger] s[i])
}

/// The line that a debug message compiles to.
pub open spec fn debug_text(m: Seq<char>) -> Seq<char> {
    DEBUG_OPEN@ + m + DEBUG_CLOSE@
}

pub const DEBUG_OPEN: &'static str = r#"tellraw @a [{"text":"[","color":"dark_blue"},{"text":"DEBUG","color":"dark_green","hoverEvent":{"action":"show_text","value":[{"text":"Debug message generated by Shulkerbox"},{"text":"\nSet debug message to 'false' to disable"}]}},{"text":"]","color":"dark_blue"},{"text":" "#;

pub const DEBUG_CLOSE: &'static str = r#"","color":"black"}]"#;

/// The lines of a leaf command.
pub open spec fn plain_lines(c: CommandView, debug: bool) -> Seq<Seq<char>> {
    match c {
        CommandView::Raw(s) => crate::text::split_lines(s),
        CommandView::Debug(m) => if debug {
            seq![debug_text(m)]
        } else {
            Seq::empty()
        },
        CommandView::Comment(s) => seq!["#"@ + s],
        _ => Seq::empty(),
    }
}

/// The lines of a sequence of leaf commands, one after another.
pub open spec fn plain_seq_lines(s: Seq<CommandView>, debug: bool) -> Seq<Seq<char>>
    decreases s.len(),
{
    if s.len() == 0 {
        Seq::empty()
    } else {
        plain_seq_lines(s.drop_last(), debug) + plain_lines(s.last(), debug)
    }
}

/// The number of lines a command counts for when deciding on hoisting, for
/// every command but an execute chain.
pub open spec fn known_count(c: CommandView, debug: bool) -> nat {
    match c {
        CommandView::Comment(_) => 0,
        CommandView::Debug(_) => if debug {
            1
        } else {
            0
        },
        CommandView::Raw(s) => crate::text::split_lines(s).len(),
        CommandView::Group(_) => 1,
        CommandView::Execute(_) => 0,
    }
}

pub open spec fn no_execute(s: Seq<CommandView>) -> bool {
    forall|i: int| 0 <= i < s.len() ==> !(#[trigger] s[i] is Execute)
}

pub open spec fn known_total(s: Seq<CommandView>, debug: bool) -> nat
    decreases s.len(),
{
    if s.len() == 0 {
        0
    } else {
        known_total(s.drop_last(), debug) + known_count(s.last(), debug)
    }
}

impl Command {
    /// Create a new raw command.
    pub fn raw(command: &str) -> (r: Command)
        ensures
            r@ == CommandView::Raw(command@),
    {
        Command::Raw(String::from_str(command))
    }

    /// A copy of this command, with the same view.
    pub fn duplicate(&self) -> (r: Command)
        ensures
            r@ == self@,
        decreases self, 0nat,
    {
        match self {
            Command::Raw(s) => Command::Raw(s.clone()),
            Command::Debug(s) => Command::Debug(s.clone()),
            Command::Execute(e) => Command::Execute(e.duplicate()),
            Command::Group(cs) => Command::Group(copy_commands(cs)),
            Command::Comment(s) => Command::Comment(s.clone()),
        }
    }
}

/// Copies of the commands of `cs`, with the same views.
pub fn copy_commands(cs: &Vec<Command>) -> (r: Vec<Command>)
    ensures
        commands_view(r@) == commands_view(cs@),
    decreases cs, 0nat,
{
    let mut out: Vec<Command> = Vec::new();
    let mut i: usize = 0;
    while i < cs.len()
        invariant
            i <= cs@.len(),
            commands_view(out@) == commands_view(cs@.take(i as int)),
        decreases cs.len() - i,
    {
        let c = cs[i].duplicate();
        proof {
            lemma_commands_view_push(out@, c);
            lemma_commands_view_push(cs@.take(i as int), cs@[i as int]);
            assert(cs@.take(i + 1) =~= cs@.take(i as int).push(cs@[i as int]));
        }
        out.push(c);
        i = i + 1;
    }
    assert(cs@.take(i as int) =~= cs@);
    out
}

impl Execute {
    /// A copy of this execute chain, with the same view.
    pub fn duplicate(&self) -> (r: Execute)
        ensures
            r@ == self@,
        decreases self, 0nat,
    {
        match self {
            Execute::Align(a, n) => Execute::Align(a.clone(), Box::new(n.duplicate())),
            Execute::Anchored(a, n) => Execute::Anchored(a.clone(), Box::new(n.duplicate())),
            Execute::As(a, n) => Execute::As(a.clone(), Box::new(n.duplicate())),
            Execute::At(a, n) => Execute::At(a.clone(), Box::new(n.duplicate())),
            Execute::AsAt(a, n) => Execute::AsAt(a.clone(), Box::new(n.duplicate())),
            Execute::Facing(a, n) => Execute::Facing(a.clone(), Box::new(n.duplicate())),
            Execute::In(a, n) => Execute::In(a.clone(), Box::new(n.duplicate())),
            Execute::On(a, n) => Execute::On(a.clone(), Box::new(n.duplicate())),
            Execute::Positioned(a, n) => Execute::Positioned(a.clone(), Box::new(n.duplicate())),
            Execute::Rotated(a, n) => Execute::Rotated(a.clone(), Box::new(n.duplicate())),
            Execute::Store(a, n) => Execute::Store(a.clone(), Box::new(n.duplicate())),
            Execute::Summon(a, n) => Execute::Summon(a.clone(), Box::new(n.duplicate())),
            Execute::If(c, t, el) => {
                let el2 = match el {
                    Some(x) => Some(Box::new(x.duplicate())),
                    None => None,
                };
                Execute::If(c.duplicate(), Box::new(t.duplicate()), el2)
            },
            Execute::Run(c) => Execute::Run(Box::new(c.duplicate())),
            Execute::Runs(cs) => Execute::Runs(copy_commands(cs)),
        }
    }
}

impl Clone for Command {
    fn clone(&self) -> Self {
        self.duplicate()
    }
}

impl Clone for Execute {
    fn clone(&self) -> Self {
        self.duplicate()
    }
}

} // verus!
