//! A named unit of commands within a namespace.

use vstd::prelude::*;
use std::ops::RangeInclusive;
use crate::command::{Command, CommandView, all_plain, commands_view, copy_commands, lemma_commands_view_push, plain_seq_lines, seq_size};
use crate::compile::{CompileOptions, CompilerState, FunctionCompilerState, advances};
use crate::execute::{all_simple, compile_commands, simple_seq_lines};
use crate::model::seq_c;
use crate::text::{join_lines, joined, owned};
use crate::validate::{seq_valid, validate_all};
use crate::vfs::{VFile, VFileView};

verus! {

/// Function that can be called by a command
#[derive(Debug, PartialEq, Eq, Hash)]
pub struct Function {
    commands: Vec<Command>,
    name: String,
    namespace: String,
}

pub struct FunctionView {
    pub commands: Seq<CommandView>,
    pub name: Seq<char>,
    pub namespace: Seq<char>,
}

impl View for Function {
    type V = FunctionView;

    closed spec fn view(&self) -> FunctionView {
        FunctionView { commands: commands_view(self.commands@), name: self.name@, namespace: self.namespace@ }
    }
}

impl Clone for Function {
    fn clone(&self) -> Self {
        self.duplicate()
    }
}

impl Default for Function {
    fn default() -> (r: Self)
        ensures
            r@.commands == Seq::<CommandView>::empty(),
            r@.name == Seq::<char>::empty(),
            r@.namespace == Seq::<char>::empty(),
    {
        Function { commands: Vec::new(), name: String::new(), namespace: String::new() }
    }
}

impl Function {
    /// A function without commands.
    pub fn new(namespace: &str, name: &str) -> (r: Self)
        ensures
            r@.commands == Seq::<CommandView>::empty(),
            r@.name == name@,
            r@.namespace == namespace@,
    {
        Function { commands: Vec::new(), name: owned(name), namespace: owned(namespace) }
    }

    /// A function holding copies of `commands`.
    pub fn with_commands(namespace: &str, name: &str, commands: &Vec<Command>) -> (r: Self)
        ensures
            r@.commands == commands_view(commands@),
            r@.name == name@,
            r@.namespace == namespace@,
    {
        Function { commands: copy_commands(commands), name: owned(name), namespace: owned(namespace) }
    }

    /// A copy of this function, with the same view.
    pub fn duplicate(&self) -> (r: Self)
        ensures
            r@ == self@,
    {
        Function {
            commands: copy_commands(&self.commands),
            name: self.name.clone(),
            namespace: self.namespace.clone(),
        }
    }

    /// The name of the function.
    pub fn name(&self) -> (r: &str)
        ensures
            r@ == self@.name,
    {
        self.name.as_str()
    }

    /// The namespace of the function.
    pub fn namespace(&self) -> (r: &str)
        ensures
            r@ == self@.namespace,
    {
        self.namespace.as_str()
    }

    /// Add a command to the function.
    pub fn add_command(&mut self, command: Command)
        ensures
            final(self)@.commands == old(self)@.commands.push(command@),
            final(self)@.name == old(self)@.name,
            final(self)@.namespace == old(self)@.namespace,
    {
        proof {
            lemma_commands_view_push(self.commands@, command);
        }
        self.commands.push(command);
    }

    /// Get the commands of the function.
    pub fn get_commands(&self) -> (r: &Vec<Command>)
        ensures
            commands_view(r@) == self@.commands,
    {
        &self.commands
    }

    /// Mutably get the commands of the function.
    pub fn get_commands_mut(&mut self) -> (r: &mut Vec<Command>)
        ensures
            commands_view(r@) == old(self)@.commands,
    {
        &mut self.commands
    }

    /// Compile the function into a text file of its lines.
    pub fn compile(
        &self,
        options: &CompileOptions,
        global_state: &CompilerState,
        function_state: &mut FunctionCompilerState,
    ) -> (r: VFile)
        requires
            old(function_state).uid() + seq_size(self@.commands) <= usize::MAX,
        ensures
            advances(*old(function_state), *final(function_state), seq_size(self@.commands)),
            all_plain(self@.commands) ==> r@ == VFileView::Text(joined(plain_seq_lines(self@.commands, options.debug))),
            all_simple(self@.commands, options.debug) ==> r@ == VFileView::Text(
                joined(simple_seq_lines(self@.commands, options.debug)),
            ),
            r@ == VFileView::Text(joined(seq_c(self@.commands, *options, old(function_state).model()).0)),
            final(function_state).model() == seq_c(self@.commands, *options, old(function_state).model()).1,
    {
        let lines = compile_commands(&self.commands, options, global_state, function_state);
        VFile::Text(join_lines(&lines))
    }

    /// Check whether the function is valid with the given pack formats.
    pub fn validate(&self, pack_formats: &RangeInclusive<u8>) -> (r: bool)
        ensures
            r == seq_valid(self@.commands, pack_formats@.start, pack_formats@.end),
    {
        validate_all(&self.commands, pack_formats)
    }

    /// The call command of this function: `function <namespace>:<name>`.
    pub fn call_command(&self) -> (r: Command)
        ensures
            r@ == CommandView::Raw("function "@ + self@.namespace + ":"@ + self@.name),
    {
        Command::Raw(owned("function ").concat(self.namespace.as_str()).concat(":").concat(self.name.as_str()))
    }
}

} // verus!
