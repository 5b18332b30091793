use vstd::prelude::*;
use vstd::string::*;

use crate::path::{join_path, joined, value_of};
use crate::tokenize::texts;

verus! {

/// The commands the shell carries out itself.
#[derive(PartialEq, Eq, Structural, Clone, Copy, Debug)]
pub enum Builtin {
    Exit,
    Echo,
    Type,
    Pwd,
    Cd,
}

/// The builtin a command word names, if any (exact, case-sensitive match).
pub open spec fn builtin_of(w: Seq<char>) -> Option<Builtin> {
    if w == seq!['e', 'x', 'i', 't'] {
        Some(Builtin::Exit)
    } else if w == seq!['e', 'c', 'h', 'o'] {
        Some(Builtin::Echo)
    } else if w == seq!['t', 'y', 'p', 'e'] {
        Some(Builtin::Type)
    } else if w == seq!['p', 'w', 'd'] {
        Some(Builtin::Pwd)
    } else if w == seq!['c', 'd'] {
        Some(Builtin::Cd)
    } else {
        None
    }
}

impl Builtin {
    /// The command word that names this builtin.
    pub fn word(&self) -> (r: &'static str)
        ensures
            builtin_of(r@) == Some(*self),
    {
        proof {
            reveal_strlit("exit");
            reveal_strlit("echo");
            reveal_strlit("type");
            reveal_strlit("pwd");
            reveal_strlit("cd");
            assert("exit"@ =~= seq!['e', 'x', 'i', 't']);
            assert("echo"@ =~= seq!['e', 'c', 'h', 'o']);
            assert("type"@ =~= seq!['t', 'y', 'p', 'e']);
            assert("pwd"@ =~= seq!['p', 'w', 'd']);
            assert("cd"@ =~= seq!['c', 'd']);
        }
        match self {
            Builtin::Exit => "exit",
            Builtin::Echo => "echo",
            Builtin::Type => "type",
            Builtin::Pwd => "pwd",
            Builtin::Cd => "cd",
        }
    }
}

/// Whether two strings hold the same characters.
pub fn same_text(a: &str, b: &str) -> (r: bool)
    ensures
        r == (a@ == b@),
{
    let n = a.unicode_len();
    if n != b.unicode_len() {
        return false;
    }
    let mut i: usize = 0;
    while i < n
        invariant
            n == a@.len(),
            n == b@.len(),
            i <= n,
            forall|k: int| 0 <= k < i ==> a@[k] == b@[k],
        decreases n - i,
    {
        if a.get_char(i) != b.get_char(i) {
            return false;
        }
        i = i + 1;
    }
    assert(a@ =~= b@);
    true
}

/// The builtin that `word` names, if any.
pub fn builtin_named(word: &str) -> (r: Option<Builtin>)
    ensures
        r == builtin_of(word@),
{
    proof {
        reveal_strlit("exit");
        reveal_strlit("echo");
        reveal_strlit("type");
        reveal_strlit("pwd");
        reveal_strlit("cd");
        assert("exit"@ =~= seq!['e', 'x', 'i', 't']);
        assert("echo"@ =~= seq!['e', 'c', 'h', 'o']);
        assert("type"@ =~= seq!['t', 'y', 'p', 'e']);
        assert("pwd"@ =~= seq!['p', 'w', 'd']);
        assert("cd"@ =~= seq!['c', 'd']);
    }
    if same_text(word, "exit") {
        Some(Builtin::Exit)
    } else if same_text(word, "echo") {
        Some(Builtin::Echo)
    } else if same_text(word, "type") {
        Some(Builtin::Type)
    } else if same_text(word, "pwd") {
        Some(Builtin::Pwd)
    } else if same_text(word, "cd") {
        Some(Builtin::Cd)
    } else {
        None
    }
}

pub open spec fn is_digit(c: char) -> bool {
    '0' <= c <= '9'
}

pub open spec fn all_digits(s: Seq<char>) -> bool {
    forall|i: int| 0 <= i < s.len() ==> is_digit(#[trigger] s[i])
}

/// The number a run of decimal digits denotes.
pub open spec fn digits_value(s: Seq<char>) -> int
    decreases s.len(),
{
    if s.len() == 0 {
        0
    } else {
        digits_value(s.drop_last()) * 10 + (s.last() as int - '0' as int)
    }
}

/// The integer a text denotes: an optional `+` or `-` followed by one or more
/// decimal digits, and nothing else.
pub open spec fn integer_value(s: Seq<char>) -> Option<int> {
    if s.len() > 0 && (s[0] == '+' || s[0] == '-') {
        let d = s.drop_first();
        if d.len() > 0 && all_digits(d) {
            Some(if s[0] == '-' { -digits_value(d) } else { digits_value(d) })
        } else {
            None
        }
    } else if s.len() > 0 && all_digits(s) {
        Some(digits_value(s))
    } else {
        None
    }
}

/// The exit status a text gives: an integer that fits in 32 signed bits.
pub open spec fn status_value(s: Seq<char>) -> Option<int> {
    match integer_value(s) {
        Some(v) => if i32::MIN <= v <= i32::MAX {
            Some(v)
        } else {
            None
        },
        None => None,
    }
}

/// A digit value held no higher than one past the largest magnitude of an `i32`.
pub open spec fn capped(v: int) -> int {
    if v > 0x8000_0000 {
        0x8000_0001
    } else {
        v
    }
}

proof fn lemma_digits_value_nonneg(s: Seq<char>)
    requires
        all_digits(s),
    ensures
        digits_value(s) >= 0,
    decreases s.len(),
{
    if s.len() > 0 {
        lemma_digits_value_nonneg(s.drop_last());
    }
}

/// Reads a text as a 32-bit signed integer.
pub fn parse_status(text: &str) -> (r: Option<i32>)
    ensures
        match r {
            Some(v) => status_value(text@) == Some(v as int),
            None => status_value(text@) is None,
        },
{
    let n = text.unicode_len();
    if n == 0 {
        return None;
    }
    let first = text.get_char(0);
    let negative = first == '-';
    let start: usize = if first == '-' || first == '+' { 1 } else { 0 };
    if start == n {
        return None;
    }
    let ghost d = text@.subrange(start as int, n as int);
    proof {
        if start == 1 {
            assert(d =~= text@.drop_first());
        } else {
            assert(d =~= text@);
        }
    }
    let mut acc: u64 = 0;
    let mut j: usize = start;
    while j < n
        invariant
            n == text@.len(),
            start <= j <= n,
            d == text@.subrange(start as int, n as int),
            n > 0,
            start == 1 <==> (text@[0] == '-' || text@[0] == '+'),
            start == 1 ==> d == text@.drop_first(),
            start == 0 ==> d == text@,
            start <= 1,
            negative == (text@[0] == '-'),
            all_digits(text@.subrange(start as int, j as int)),
            acc as int == capped(digits_value(text@.subrange(start as int, j as int))),
        decreases n - j,
    {
        let c = text.get_char(j);
        if !('0' <= c && c <= '9') {
            proof {
                assert(d[j - start] == c);
                assert(!all_digits(d));
            }
            return None;
        }
        let ghost prev = text@.subrange(start as int, j as int);
        let ghost next = text@.subrange(start as int, j + 1);
        proof {
            assert(next.drop_last() =~= prev);
            lemma_digits_value_nonneg(prev);
        }
        let digit = (c as u32 - '0' as u32) as u64;
        let grown = acc * 10 + digit;
        acc = if grown > 0x8000_0000 { 0x8000_0001 } else { grown };
        j = j + 1;
    }
    proof {
        assert(text@.subrange(start as int, n as int) =~= d);
        lemma_digits_value_nonneg(d);
    }
    if negative {
        if acc > 0x8000_0000 {
            None
        } else {
            Some((0 - (acc as i64)) as i32)
        }
    } else {
        if acc > 0x7fff_ffff {
            None
        } else {
            Some(acc as i32)
        }
    }
}

/// What the host has to do to carry a command out.
#[derive(Debug)]
pub enum Effect {
    /// Write this text to standard output.
    Stdout(String),
    /// Write this text to standard error.
    Stderr(String),
    /// Terminate the shell with this status.
    Exit(i32),
    /// Print the current working directory (see `pwd_text`).
    ShowCwd,
    /// Make this path the current working directory.
    ChangeDir(String),
    /// Look this name up on the search path, then report it (see `type_found`).
    LookUp(String),
    /// Find out what is at this path, then decide (see `cd_check`).
    Inspect(String),
    /// Run the program at this path with the command's arguments.
    Launch(String),
}

/// An `Effect` with its texts as character sequences.
pub enum EffectView {
    Stdout(Seq<char>),
    Stderr(Seq<char>),
    Exit(i32),
    ShowCwd,
    ChangeDir(Seq<char>),
    LookUp(Seq<char>),
    Inspect(Seq<char>),
    Launch(Seq<char>),
}

impl View for Effect {
    type V = EffectView;

    open spec fn view(&self) -> EffectView {
        match self {
            Effect::Stdout(s) => EffectView::Stdout(s@),
            Effect::Stderr(s) => EffectView::Stderr(s@),
            Effect::Exit(n) => EffectView::Exit(*n),
            Effect::ShowCwd => EffectView::ShowCwd,
            Effect::ChangeDir(s) => EffectView::ChangeDir(s@),
            Effect::LookUp(s) => EffectView::LookUp(s@),
            Effect::Inspect(s) => EffectView::Inspect(s@),
            Effect::Launch(s) => EffectView::Launch(s@),
        }
    }
}

/// What is found at a path that `cd` is asked to enter.
#[derive(PartialEq, Eq, Structural, Clone, Copy, Debug)]
pub enum EntryKind {
    Missing,
    Directory,
    NotDirectory,
}

/// Words separated by single spaces.
pub open spec fn spaced(ws: Seq<Seq<char>>) -> Seq<char>
    decreases ws.len(),
{
    if ws.len() == 0 {
        seq![]
    } else if ws.len() == 1 {
        ws[0]
    } else {
        spaced(ws.drop_last()) + seq![' '] + ws.last()
    }
}

pub open spec fn exit_effect(args: Seq<Seq<char>>) -> EffectView {
    if args.len() == 0 {
        EffectView::Exit(0)
    } else {
        match status_value(args[0]) {
            Some(v) => EffectView::Exit(v as i32),
            None => EffectView::Stderr("exit: numeric argument required\n"@),
        }
    }
}

pub open spec fn echo_effect(args: Seq<Seq<char>>) -> EffectView {
    EffectView::Stdout(spaced(args) + seq!['\n'])
}

pub open spec fn type_effect(args: Seq<Seq<char>>) -> EffectView {
    if args.len() == 0 {
        EffectView::Stderr("type: missing argument\n"@)
    } else if builtin_of(args[0]) is Some {
        EffectView::Stdout(args[0] + " is a shell builtin\n"@)
    } else {
        EffectView::LookUp(args[0])
    }
}

/// The directory `cd` is asked to enter, or `None` when that needs `HOME`
/// and `HOME` is unset.
pub open spec fn cd_target_of(args: Seq<Seq<char>>, home: Option<Seq<char>>) -> Option<Seq<char>> {
    if args.len() == 0 || args[0] == seq!['~'] {
        home
    } else if args[0].len() >= 2 && args[0][0] == '~' && args[0][1] == '/' {
        match home {
            Some(h) => Some(joined(h, args[0].skip(2))),
            None => None,
        }
    } else {
        Some(args[0])
    }
}

pub open spec fn cd_effect(args: Seq<Seq<char>>, home: Option<Seq<char>>) -> EffectView {
    match cd_target_of(args, home) {
        Some(t) => EffectView::Inspect(t),
        None => EffectView::Stderr("cd: HOME not set\n"@),
    }
}

/// What a builtin does with its arguments, `home` being the value of `HOME`.
pub open spec fn builtin_effect(b: Builtin, args: Seq<Seq<char>>, home: Option<Seq<char>>) -> EffectView {
    match b {
        Builtin::Exit => exit_effect(args),
        Builtin::Echo => echo_effect(args),
        Builtin::Type => type_effect(args),
        Builtin::Pwd => EffectView::ShowCwd,
        Builtin::Cd => cd_effect(args, home),
    }
}

/// `exit [status]`: no argument gives status 0, a numeric first argument
/// gives that status, anything else is reported.
pub fn exit_step(args: &[String]) -> (r: Effect)
    ensures
        r@ == exit_effect(texts(args@)),
{
    if args.len() == 0 {
        Effect::Exit(0)
    } else {
        match parse_status(args[0].as_str()) {
            Some(v) => Effect::Exit(v),
            None => Effect::Stderr(String::from_str("exit: numeric argument required\n")),
        }
    }
}

/// The line `echo` writes: its arguments separated by single spaces, then a newline.
pub fn echo_text(args: &[String]) -> (r: String)
    ensures
        r@ == spaced(texts(args@)) + seq!['\n'],
{
    let ghost ws = texts(args@);
    let mut out = String::new();
    let mut i: usize = 0;
    while i < args.len()
        invariant
            ws == texts(args@),
            i <= args.len(),
            out@ == spaced(ws.take(i as int)),
        decreases args.len() - i,
    {
        proof {
            assert(ws.take(i + 1).drop_last() =~= ws.take(i as int));
        }
        proof {
            reveal_strlit(" ");
        }
        assert(" "@ =~= seq![' ']);
        assert(ws[i as int] == args@[i as int]@);
        if i > 0 {
            out.append(" ");
        } else {
            assert(out@ =~= Seq::<char>::empty());
        }
        out.append(args[i].as_str());
        proof {
            if i == 0 {
                assert(out@ =~= ws.take(1)[0]);
            } else {
                assert(out@ =~= spaced(ws.take(i as int)) + seq![' '] + ws.take(i + 1).last());
            }
        }
        i = i + 1;
    }
    assert(ws.take(args.len() as int) =~= ws);
    proof {
        reveal_strlit("\n");
    }
    assert("\n"@ =~= seq!['\n']);
    out.append("\n");
    out
}

/// `type <name>`: a builtin name is reported at once, any other is looked up.
pub fn type_step(args: &[String]) -> (r: Effect)
    ensures
        r@ == type_effect(texts(args@)),
{
    if args.len() == 0 {
        Effect::Stderr(String::from_str("type: missing argument\n"))
    } else if builtin_named(args[0].as_str()).is_some() {
        Effect::Stdout(args[0].clone().concat(" is a shell builtin\n"))
    } else {
        Effect::LookUp(args[0].clone())
    }
}

/// The report of `type` on a name that is no builtin, given where the search
/// path lookup found it.
pub fn type_found(name: &str, found: Option<&str>) -> (r: String)
    ensures
        r@ == match found {
            Some(p) => name@ + " is "@ + p@ + "\n"@,
            None => name@ + ": not found\n"@,
        },
{
    match found {
        Some(p) => String::from_str(name).concat(" is ").concat(p).concat("\n"),
        None => String::from_str(name).concat(": not found\n"),
    }
}

/// The line `pwd` writes for the working directory `cwd`.
pub fn pwd_text(cwd: &str) -> (r: String)
    ensures
        r@ == cwd@ + "\n"@,
{
    String::from_str(cwd).concat("\n")
}

/// `cd [target]`: the directory to enter, with `~` and a leading `~/`
/// standing for `home`, the value of `HOME`.
pub fn cd_step(args: &[String], home: Option<&str>) -> (r: Effect)
    ensures
        r@ == cd_effect(texts(args@), value_of(home)),
{
    proof {
        reveal_strlit("~");
        assert("~"@ =~= seq!['~']);
    }
    let target: Option<String> = if args.len() == 0 || same_text(args[0].as_str(), "~") {
        match home {
            Some(h) => Some(String::from_str(h)),
            None => None,
        }
    } else {
        let a = args[0].as_str();
        let n = a.unicode_len();
        if n >= 2 && a.get_char(0) == '~' && a.get_char(1) == '/' {
            assert(a@.subrange(2, n as int) =~= a@.skip(2));
            match home {
                Some(h) => Some(join_path(h, a.substring_char(2, n))),
                None => None,
            }
        } else {
            Some(args[0].clone())
        }
    };
    proof {
        if args.len() > 0 {
            assert(texts(args@)[0] == args@[0]@);
        }
    }
    match target {
        Some(t) => Effect::Inspect(t),
        None => Effect::Stderr(String::from_str("cd: HOME not set\n")),
    }
}

/// What `cd` does once it knows what is at its target.
pub fn cd_check(target: &str, kind: EntryKind) -> (r: Effect)
    ensures
        r@ == match kind {
            EntryKind::Directory => EffectView::ChangeDir(target@),
            EntryKind::Missing => EffectView::Stderr(
                "cd: "@ + target@ + ": No such file or directory\n"@,
            ),
            EntryKind::NotDirectory => EffectView::Stderr("cd: "@ + target@ + ": Not a directory\n"@),
        },
{
    match kind {
        EntryKind::Directory => Effect::ChangeDir(String::from_str(target)),
        EntryKind::Missing => Effect::Stderr(
            String::from_str("cd: ").concat(target).concat(": No such file or directory\n"),
        ),
        EntryKind::NotDirectory => Effect::Stderr(
            String::from_str("cd: ").concat(target).concat(": Not a directory\n"),
        ),
    }
}

/// Carries out the decision part of a builtin: `home` is the value of `HOME`,
/// which only `cd` reads.
pub fn run_builtin(b: Builtin, args: &[String], home: Option<&str>) -> (r: Effect)
    ensures
        r@ == builtin_effect(b, texts(args@), value_of(home)),
{
    match b {
        Builtin::Exit => exit_step(args),
        Builtin::Echo => Effect::Stdout(echo_text(args)),
        Builtin::Type => type_step(args),
        Builtin::Pwd => Effect::ShowCwd,
        Builtin::Cd => cd_step(args, home),
    }
}

/// `cd d` with `d` free of the home shorthand asks the host about `d` itself,
/// and enters exactly `d` when the host reports a directory there.
pub proof fn lemma_cd_enters_its_argument(d: Seq<char>, home: Option<Seq<char>>)
    requires
        d != seq!['~'],
        !(d.len() >= 2 && d[0] == '~' && d[1] == '/'),
    ensures
        cd_effect(seq![d], home) == EffectView::Inspect(d),
{
}

} // verus!
