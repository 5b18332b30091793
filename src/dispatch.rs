use vstd::prelude::*;
use vstd::string::*;

use crate::builtins::{builtin_named, builtin_of, type_effect, Builtin, Effect, EffectView};
use crate::path::candidates;
use crate::tokenize::{is_blank, lemma_blank_run_collapses, split_words, texts, words};

verus! {

/// Where one input line goes.
#[derive(Debug)]
pub enum Turn {
    /// The line holds no word: nothing runs.
    Empty,
    /// The command word names a builtin; its arguments follow.
    Builtin(Builtin, Vec<String>),
    /// Any other command word, to be looked up on the search path; its
    /// arguments follow.
    External(String, Vec<String>),
}

/// A `Turn` with its words as character sequences.
pub enum TurnView {
    Empty,
    Builtin(Builtin, Seq<Seq<char>>),
    External(Seq<char>, Seq<Seq<char>>),
}

impl View for Turn {
    type V = TurnView;

    open spec fn view(&self) -> TurnView {
        match self {
            Turn::Empty => TurnView::Empty,
            Turn::Builtin(b, args) => TurnView::Builtin(*b, texts(args@)),
            Turn::External(c, args) => TurnView::External(c@, texts(args@)),
        }
    }
}

/// Where a line goes: nowhere when it has no word, to the builtin its first
/// word names, or else to a search for that word on the search path. The
/// remaining words are the arguments.
pub open spec fn turn_of(line: Seq<char>) -> TurnView {
    let ws = words(line);
    if ws.len() == 0 {
        TurnView::Empty
    } else {
        match builtin_of(ws[0]) {
            Some(b) => TurnView::Builtin(b, ws.drop_first()),
            None => TurnView::External(ws[0], ws.drop_first()),
        }
    }
}

/// What a command that is no builtin leads to, given where the search path
/// lookup found it.
pub open spec fn external_effect(command: Seq<char>, found: Option<Seq<char>>) -> EffectView {
    match found {
        Some(p) => EffectView::Launch(p),
        None => EffectView::Stdout(command + ": command not found\n"@),
    }
}

/// Tokenizes a line and routes it.
pub fn plan_turn(line: &str) -> (r: Turn)
    ensures
        r@ == turn_of(line@),
{
    let mut ws = split_words(line);
    if ws.len() == 0 {
        return Turn::Empty;
    }
    let ghost all = texts(ws@);
    let command = ws.remove(0);
    proof {
        assert(texts(ws@) =~= all.drop_first());
    }
    match builtin_named(command.as_str()) {
        Some(b) => Turn::Builtin(b, ws),
        None => Turn::External(command, ws),
    }
}

/// Runs the program that the lookup found, or reports the command unknown.
pub fn route_external(command: &str, found: Option<String>) -> (r: Effect)
    ensures
        r@ == external_effect(command@, match found {
            Some(p) => Some(p@),
            None => None,
        }),
{
    match found {
        Some(p) => Effect::Launch(p),
        None => Effect::Stdout(String::from_str(command).concat(": command not found\n")),
    }
}

/// Each line goes exactly one way: nowhere when it holds no word, to the
/// builtin its command word names, or to a search on the path.
pub proof fn lemma_one_route_per_line(line: Seq<char>)
    ensures
        words(line).len() == 0 <==> turn_of(line) is Empty,
        words(line).len() > 0 && builtin_of(words(line)[0]) is Some <==> turn_of(line) is Builtin,
        words(line).len() > 0 && builtin_of(words(line)[0]) is None <==> turn_of(line) is External,
{
}

/// A command word that names a builtin never reaches the search path, and
/// `type` on a builtin name reports it as a builtin without a search.
pub proof fn lemma_builtins_shadow_path(line: Seq<char>)
    requires
        words(line).len() > 0,
        builtin_of(words(line)[0]) is Some,
    ensures
        turn_of(line) == TurnView::Builtin(builtin_of(words(line)[0])->0, words(line).drop_first()),
        words(line).len() > 1 && builtin_of(words(line)[0]) == Some(Builtin::Type)
            && builtin_of(words(line)[1]) is Some ==> type_effect(words(line).drop_first())
            == EffectView::Stdout(words(line)[1] + " is a shell builtin\n"@),
{
}

/// Two lines that differ only in how their words are spaced go the same way:
/// a run of blanks routes like a single space.
pub proof fn lemma_spacing_is_ignored(a: Seq<char>, r: Seq<char>, b1: char, b2: char)
    requires
        is_blank(b1),
        is_blank(b2),
    ensures
        turn_of(a + seq![b1, b2] + r) == turn_of(a + seq![' '] + r),
{
    lemma_blank_run_collapses(a, r, b1, b2);
}

/// With the search path unset there is nothing to try, so every command word
/// that names no builtin is reported as not found.
pub proof fn lemma_unset_path_not_found(command: Seq<char>)
    ensures
        candidates(None, command).len() == 0,
        external_effect(command, None) == EffectView::Stdout(command + ": command not found\n"@),
{
}

} // verus!
