//! Checks that commands and execute chains are available in a range of pack
//! formats.

use vstd::prelude::*;
use vstd::string::*;
use std::ops::RangeInclusive;
use crate::command::{Command, CommandView, Execute, ExecuteView, command_view, commands_view, lemma_commands_view, lemma_commands_view_push};
use crate::compile::LATEST_FORMAT;

verus! {

broadcast use vstd::std_specs::vec::group_vec_axioms;

/// Relies on `RangeInclusive::start`: the lower bound the range was made with.
pub assume_specification<Idx>[ RangeInclusive::<Idx>::start ](r: &RangeInclusive<Idx>) -> (ret: &Idx)
    ensures
        *ret == r@.start,
;

/// Relies on `RangeInclusive::end`: the upper bound the range was made with.
pub assume_specification<Idx>[ RangeInclusive::<Idx>::end ](r: &RangeInclusive<Idx>) -> (ret: &Idx)
    ensures
        *ret == r@.end,
;

/// ASCII whitespace, as `split_ascii_whitespace` splits on.
pub open spec fn is_ascii_space(c: char) -> bool {
    c == ' ' || c == '\t' || c == '\n' || c == '\x0C' || c == '\r'
}

pub open spec fn skip_spaces(s: Seq<char>) -> Seq<char>
    decreases s.len(),
{
    if s.len() > 0 && is_ascii_space(s[0]) {
        skip_spaces(s.drop_first())
    } else {
        s
    }
}

pub open spec fn word_prefix(s: Seq<char>) -> Seq<char>
    decreases s.len(),
{
    if s.len() == 0 || is_ascii_space(s[0]) {
        Seq::empty()
    } else {
        seq![s[0]] + word_prefix(s.drop_first())
    }
}

/// The first word of a command, if it has one.
pub open spec fn first_word(s: Seq<char>) -> Option<Seq<char>> {
    let t = skip_spaces(s);
    if t.len() == 0 {
        None
    } else {
        Some(word_prefix(t))
    }
}

/// The commands available in every pack format.
pub open spec fn any_format_verbs() -> Seq<Seq<char>> {
    seq![
        "advancement"@, "ban"@, "ban-ip"@, "banlist"@, "clear"@, "clone"@, "debug"@,
        "defaultgamemode"@, "deop"@, "difficulty"@, "effect"@, "enchant"@, "execute"@,
        "experience"@, "fill"@, "gamemode"@, "gamerule"@, "give"@, "help"@, "kick"@, "kill"@,
        "list"@, "locate"@, "me"@, "msg"@, "op"@, "pardon"@, "pardon-ip"@, "particle"@,
        "playsound"@, "publish"@, "recipe"@, "reload"@, "save-all"@, "save-off"@, "save-on"@,
        "say"@, "scoreboard"@, "seed"@, "setblock"@, "setidletimeout"@, "setworldspawn"@,
        "spawnpoint"@, "spreadplayers"@, "stop"@, "stopsound"@, "summon"@, "teleport"@, "tell"@,
        "tellraw"@, "time"@, "title"@, "tp"@, "trigger"@, "w"@, "weather"@, "whitelist"@,
        "worldborder"@, "xp"@,
    ]
}

/// The commands with a limited range of pack formats: the command, its
/// first format and its last.
pub open spec fn limited_verbs() -> Seq<(Seq<char>, u8, u8)> {
    seq![
        ("attribute"@, 6u8, LATEST_FORMAT), ("bossbar"@, 4u8, LATEST_FORMAT),
        ("damage"@, 12u8, LATEST_FORMAT), ("data"@, 4u8, LATEST_FORMAT),
        ("datapack"@, 4u8, LATEST_FORMAT), ("fillbiome"@, 12u8, LATEST_FORMAT),
        ("forceload"@, 4u8, LATEST_FORMAT), ("function"@, 4u8, LATEST_FORMAT),
        ("replaceitem"@, 0u8, 6u8), ("item"@, 7u8, LATEST_FORMAT), ("jfr"@, 8u8, LATEST_FORMAT),
        ("loot"@, 4u8, LATEST_FORMAT), ("perf"@, 7u8, LATEST_FORMAT),
        ("place"@, 10u8, LATEST_FORMAT), ("placefeature"@, 9u8, 9u8),
        ("random"@, 18u8, LATEST_FORMAT), ("return"@, 15u8, LATEST_FORMAT),
        ("ride"@, 12u8, LATEST_FORMAT), ("schedule"@, 4u8, LATEST_FORMAT),
        ("spectate"@, 5u8, LATEST_FORMAT), ("tag"@, 4u8, LATEST_FORMAT),
        ("team"@, 4u8, LATEST_FORMAT), ("teammsg"@, 4u8, LATEST_FORMAT),
        ("tick"@, 22u8, LATEST_FORMAT), ("tm"@, 4u8, LATEST_FORMAT),
        ("transfer"@, 41u8, LATEST_FORMAT),
    ]
}

/// The formats of the first entry of `t` for the command `v`.
pub open spec fn lookup(t: Seq<(Seq<char>, u8, u8)>, v: Seq<char>) -> Option<(u8, u8)>
    decreases t.len(),
{
    if t.len() == 0 {
        None
    } else if t[0].0 == v {
        Some((t[0].1, t[0].2))
    } else {
        lookup(t.drop_first(), v)
    }
}

/// The formats a known command is available in.
pub open spec fn verb_range(v: Seq<char>) -> Option<(u8, u8)> {
    if any_format_verbs().contains(v) {
        Some((0u8, LATEST_FORMAT))
    } else {
        lookup(limited_verbs(), v)
    }
}

/// A raw command is valid in formats `lo..=hi` unless its first word is a
/// known command whose formats do not cover them.
pub open spec fn raw_valid(s: Seq<char>, lo: u8, hi: u8) -> bool {
    match first_word(s) {
        None => true,
        Some(w) => match verb_range(w) {
            None => true,
            Some(r) => r.0 <= lo && r.1 >= hi,
        },
    }
}

/// The least format in which a modifier exists.
pub open spec fn step_floor(name: Seq<char>) -> u8 {
    if name == "summon"@ || name == "on"@ {
        12
    } else {
        4
    }
}

pub open spec fn cmd_valid(c: CommandView, lo: u8, hi: u8) -> bool
    decreases c,
{
    match c {
        CommandView::Raw(s) => raw_valid(s, lo, hi),
        CommandView::Execute(e) => exe_valid(e, lo, hi),
        CommandView::Group(cs) => seq_valid(cs, lo, hi),
        _ => true,
    }
}

pub open spec fn seq_valid(s: Seq<CommandView>, lo: u8, hi: u8) -> bool
    decreases s,
{
    if s.len() == 0 {
        true
    } else {
        seq_valid(s.drop_last(), lo, hi) && cmd_valid(s.last(), lo, hi)
    }
}

pub open spec fn exe_valid(e: ExecuteView, lo: u8, hi: u8) -> bool
    decreases e,
{
    match e {
        ExecuteView::Step(name, _, n) => lo >= step_floor(name) && exe_valid(*n, lo, hi),
        ExecuteView::If(_, t, el) => lo >= 4 && exe_valid(*t, lo, hi) && match el {
            Some(x) => exe_valid(*x, lo, hi),
            None => true,
        },
        ExecuteView::Run(c) => cmd_valid(*c, lo, hi),
        ExecuteView::Runs(cs) => seq_valid(cs, lo, hi),
    }
}

fn same_text(a: &str, b: &str) -> (r: bool)
    ensures
        r == (a@ == b@),
{
    let n = a.unicode_len();
    if n != b.unicode_len() {
        return false;
    }
    let mut i: usize = 0;
    while i < n
        invariant
            n == a@.len(),
            n == b@.len(),
            i <= n,
            forall|j: int| 0 <= j < i ==> a@[j] == b@[j],
        decreases n - i,
    {
        if a.get_char(i) != b.get_char(i) {
            return false;
        }
        i = i + 1;
    }
    assert(a@ =~= b@);
    true
}

fn is_ascii_whitespace(c: char) -> (r: bool)
    ensures
        r == is_ascii_space(c),
{
    c == ' ' || c == '\t' || c == '\n' || c == '\x0C' || c == '\r'
}

/// The first word of a command.
pub fn first_word_of(s: &str) -> (r: Option<&str>)
    ensures
        r matches Some(w) ==> first_word(s@) == Some(w@),
        r is None ==> first_word(s@) is None,
{
    let n = s.unicode_len();
    let mut i: usize = 0;
    assert(s@.subrange(0, n as int) =~= s@);
    while i < n && is_ascii_whitespace(s.get_char(i))
        invariant
            n == s@.len(),
            i <= n,
            skip_spaces(s@) == skip_spaces(s@.subrange(i as int, n as int)),
        decreases n - i,
    {
        proof {
            assert(s@.subrange(i as int, n as int).drop_first() =~= s@.subrange(i + 1, n as int));
        }
        i = i + 1;
    }
    if i == n {
        assert(s@.subrange(i as int, n as int) =~= Seq::<char>::empty());
        return None;
    }
    let start = i;
    proof {
        assert(skip_spaces(s@.subrange(i as int, n as int)) == s@.subrange(i as int, n as int));
    }
    let mut j: usize = start;
    while j < n && !is_ascii_whitespace(s.get_char(j))
        invariant
            n == s@.len(),
            start < n,
            start <= j <= n,
            word_prefix(s@.subrange(start as int, n as int)) == s@.subrange(start as int, j as int)
                + word_prefix(s@.subrange(j as int, n as int)),
        decreases n - j,
    {
        proof {
            assert(s@.subrange(j as int, n as int).drop_first() =~= s@.subrange(j + 1, n as int));
            assert(s@.subrange(start as int, j + 1) =~= s@.subrange(start as int, j as int) + seq![s@[j as int]]);
        }
        j = j + 1;
    }
    proof {
        assert(word_prefix(s@.subrange(j as int, n as int)) =~= Seq::<char>::empty());
        assert(s@.subrange(start as int, j as int) + Seq::<char>::empty() =~= s@.subrange(start as int, j as int));
    }
    Some(s.substring_char(start, j))
}

/// The formats a known command is available in.
pub fn known_range(verb: &str) -> (r: Option<(u8, u8)>)
    ensures
        r == verb_range(verb@),
{
    let any: Vec<&str> = vec![
        "advancement", "ban", "ban-ip", "banlist", "clear", "clone", "debug", "defaultgamemode",
        "deop", "difficulty", "effect", "enchant", "execute", "experience", "fill", "gamemode",
        "gamerule", "give", "help", "kick", "kill", "list", "locate", "me", "msg", "op", "pardon",
        "pardon-ip", "particle", "playsound", "publish", "recipe", "reload", "save-all",
        "save-off", "save-on", "say", "scoreboard", "seed", "setblock", "setidletimeout",
        "setworldspawn", "spawnpoint", "spreadplayers", "stop", "stopsound", "summon", "teleport",
        "tell", "tellraw", "time", "title", "tp", "trigger", "w", "weather", "whitelist",
        "worldborder", "xp",
    ];
    let limited: Vec<(&str, u8, u8)> = vec![
        ("attribute", 6, LATEST_FORMAT), ("bossbar", 4, LATEST_FORMAT),
        ("damage", 12, LATEST_FORMAT), ("data", 4, LATEST_FORMAT),
        ("datapack", 4, LATEST_FORMAT), ("fillbiome", 12, LATEST_FORMAT),
        ("forceload", 4, LATEST_FORMAT), ("function", 4, LATEST_FORMAT),
        ("replaceitem", 0, 6), ("item", 7, LATEST_FORMAT), ("jfr", 8, LATEST_FORMAT),
        ("loot", 4, LATEST_FORMAT), ("perf", 7, LATEST_FORMAT),
        ("place", 10, LATEST_FORMAT), ("placefeature", 9, 9),
        ("random", 18, LATEST_FORMAT), ("return", 15, LATEST_FORMAT),
        ("ride", 12, LATEST_FORMAT), ("schedule", 4, LATEST_FORMAT),
        ("spectate", 5, LATEST_FORMAT), ("tag", 4, LATEST_FORMAT),
        ("team", 4, LATEST_FORMAT), ("teammsg", 4, LATEST_FORMAT),
        ("tick", 22, LATEST_FORMAT), ("tm", 4, LATEST_FORMAT),
        ("transfer", 41, LATEST_FORMAT),
    ];
    let ghost anyv = any_format_verbs();
    assert(any@.map_values(|w: &str| w@) =~= anyv);
    let mut i: usize = 0;
    while i < any.len()
        invariant
            i <= any@.len(),
            any@.map_values(|w: &str| w@) == anyv,
            anyv == any_format_verbs(),
            forall|k: int| 0 <= k < i ==> anyv[k] != verb@,
        decreases any.len() - i,
    {
        if same_text(any[i], verb) {
            assert(anyv[i as int] == verb@);
            return Some((0, LATEST_FORMAT));
        }
        i = i + 1;
    }
    assert(!any_format_verbs().contains(verb@));
    let ghost lim = limited_verbs();
    assert(limited@.map_values(|e: (&str, u8, u8)| (e.0@, e.1, e.2)) =~= lim);
    assert(lim.skip(0) =~= lim);
    let mut j: usize = 0;
    while j < limited.len()
        invariant
            j <= limited@.len(),
            limited@.map_values(|e: (&str, u8, u8)| (e.0@, e.1, e.2)) == lim,
            lim == limited_verbs(),
            !any_format_verbs().contains(verb@),
            lookup(lim, verb@) == lookup(lim.skip(j as int), verb@),
        decreases limited.len() - j,
    {
        proof {
            assert(lim.skip(j as int)[0] == lim[j as int]);
            assert(lim.skip(j as int).drop_first() =~= lim.skip(j + 1));
        }
        if same_text(limited[j].0, verb) {
            assert(lim[j as int].0 == verb@);
            return Some((limited[j].1, limited[j].2));
        }
        j = j + 1;
    }
    assert(lim.skip(j as int).len() == 0);
    None
}

/// Whether a raw command is valid with the given pack formats.
pub fn validate_raw_cmd(cmd: &str, pack_formats: &RangeInclusive<u8>) -> (r: bool)
    ensures
        r == raw_valid(cmd@, pack_formats@.start, pack_formats@.end),
{
    match first_word_of(cmd) {
        None => true,
        Some(w) => match known_range(w) {
            None => true,
            Some((start_cmd, end_cmd)) => start_cmd <= *pack_formats.start() && end_cmd >= *pack_formats.end(),
        },
    }
}

impl Command {
    /// Check whether the command is valid with the given pack formats.
    pub fn validate(&self, pack_formats: &RangeInclusive<u8>) -> (r: bool)
        ensures
            r == cmd_valid(self@, pack_formats@.start, pack_formats@.end),
        decreases self, 0nat,
    {
        match self {
            Command::Comment(_) | Command::Debug(_) => true,
            Command::Group(cs) => validate_all(cs, pack_formats),
            Command::Raw(cmd) => validate_raw_cmd(cmd.as_str(), pack_formats),
            Command::Execute(ex) => ex.validate(pack_formats),
        }
    }
}

/// Whether every command of `cs` is valid with the given pack formats.
pub fn validate_all(cs: &Vec<Command>, pack_formats: &RangeInclusive<u8>) -> (r: bool)
    ensures
        r == seq_valid(commands_view(cs@), pack_formats@.start, pack_formats@.end),
    decreases cs, 0nat,
{
    let ghost lo = pack_formats@.start;
    let ghost hi = pack_formats@.end;
    let mut i: usize = 0;
    while i < cs.len()
        invariant
            i <= cs@.len(),
            lo == pack_formats@.start,
            hi == pack_formats@.end,
            seq_valid(commands_view(cs@.take(i as int)), lo, hi),
        decreases cs.len() - i,
    {
        proof {
            assert(cs@.take(i + 1) =~= cs@.take(i as int).push(cs@[i as int]));
            lemma_commands_view_push(cs@.take(i as int), cs@[i as int]);
            assert(commands_view(cs@.take(i + 1)).drop_last() =~= commands_view(cs@.take(i as int)));
        }
        let ok = cs[i].validate(pack_formats);
        proof {
            let sv = commands_view(cs@.take(i + 1));
            assert(sv == commands_view(cs@.take(i as int)).push(command_view(cs@[i as int])));
            assert(sv.last() == command_view(cs@[i as int]));
            assert(seq_valid(sv, lo, hi) == (seq_valid(sv.drop_last(), lo, hi) && cmd_valid(sv.last(), lo, hi)));
        }
        if !ok {
            proof {
                lemma_commands_view(cs@);
                lemma_commands_view(cs@.take(i + 1));
                assert(commands_view(cs@.take(i + 1)) =~= commands_view(cs@).take(i + 1));
                if seq_valid(commands_view(cs@), lo, hi) {
                    lemma_seq_valid_take(commands_view(cs@), i + 1, lo, hi);
                }
            }
            return false;
        }
        i = i + 1;
    }
    assert(cs@.take(i as int) =~= cs@);
    true
}

proof fn lemma_seq_valid_take(s: Seq<CommandView>, i: int, lo: u8, hi: u8)
    requires
        0 <= i <= s.len(),
        seq_valid(s, lo, hi),
    ensures
        seq_valid(s.take(i), lo, hi),
    decreases s.len(),
{
    if i < s.len() {
        assert(s.drop_last().take(i) =~= s.take(i));
        lemma_seq_valid_take(s.drop_last(), i, lo, hi);
    } else {
        assert(s.take(i) =~= s);
    }
}

proof fn lemma_step_floor(e: Execute)
    ensures
        (e is Summon || e is On) ==> step_floor(e@->Step_0) == 12,
        e@ is Step && !(e is Summon) && !(e is On) ==> step_floor(e@->Step_0) == 4,
{
    reveal_strlit("summon");
    reveal_strlit("on");
    reveal_strlit("align");
    reveal_strlit("anchored");
    reveal_strlit("as");
    reveal_strlit("at");
    reveal_strlit("as_at");
    reveal_strlit("facing");
    reveal_strlit("in");
    reveal_strlit("positioned");
    reveal_strlit("rotated");
    reveal_strlit("store");
    match e {
        Execute::Align(..) => {
            assert("align"@.len() != "summon"@.len());
            assert("align"@.len() != 2 || "align"@[0] != "on"@[0]);
        },
        Execute::Anchored(..) => {
            assert("anchored"@.len() != "summon"@.len());
            assert("anchored"@.len() != 2 || "anchored"@[0] != "on"@[0]);
        },
        Execute::As(..) => {
            assert("as"@.len() != "summon"@.len());
            assert("as"@.len() != 2 || "as"@[0] != "on"@[0]);
        },
        Execute::At(..) => {
            assert("at"@.len() != "summon"@.len());
            assert("at"@.len() != 2 || "at"@[0] != "on"@[0]);
        },
        Execute::AsAt(..) => {
            assert("as_at"@.len() != "summon"@.len());
            assert("as_at"@.len() != 2 || "as_at"@[0] != "on"@[0]);
        },
        Execute::Facing(..) => {
            assert("facing"@[0] != "summon"@[0]);
            assert("facing"@.len() != 2 || "facing"@[0] != "on"@[0]);
        },
        Execute::In(..) => {
            assert("in"@.len() != "summon"@.len());
            assert("in"@.len() != 2 || "in"@[0] != "on"@[0]);
        },
        Execute::On(..) => {},
        Execute::Positioned(..) => {
            assert("positioned"@.len() != "summon"@.len());
            assert("positioned"@.len() != 2 || "positioned"@[0] != "on"@[0]);
        },
        Execute::Rotated(..) => {
            assert("rotated"@.len() != "summon"@.len());
            assert("rotated"@.len() != 2 || "rotated"@[0] != "on"@[0]);
        },
        Execute::Store(..) => {
            assert("store"@.len() != "summon"@.len());
            assert("store"@.len() != 2 || "store"@[0] != "on"@[0]);
        },
        Execute::Summon(..) => {},
        _ => {},
    }
}

impl Execute {
    /// Check whether the execute chain is valid with the given pack formats.
    pub fn validate(&self, pack_formats: &RangeInclusive<u8>) -> (r: bool)
        ensures
            r == exe_valid(self@, pack_formats@.start, pack_formats@.end),
        decreases self, 0nat,
    {
        proof {
            lemma_step_floor(*self);
        }
        match self {
            Execute::Run(cmd) => cmd.validate(pack_formats),
            Execute::Runs(cmds) => validate_all(cmds, pack_formats),
            Execute::Facing(_, next) | Execute::Store(_, next) | Execute::Positioned(_, next)
            | Execute::Rotated(_, next) | Execute::In(_, next) | Execute::As(_, next)
            | Execute::At(_, next) | Execute::AsAt(_, next) | Execute::Align(_, next)
            | Execute::Anchored(_, next) => *pack_formats.start() >= 4 && next.validate(pack_formats),
            Execute::If(_, next, el) => {
                *pack_formats.start() >= 4 && next.validate(pack_formats) && match el {
                    Some(e) => e.validate(pack_formats),
                    None => true,
                }
            },
            Execute::Summon(_, next) | Execute::On(_, next) => {
                *pack_formats.start() >= 12 && next.validate(pack_formats)
            },
        }
    }
}

} // verus!
