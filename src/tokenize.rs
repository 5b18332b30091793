use vstd::prelude::*;
use vstd::string::*;

verus! {

/// The characters that separate words on a command line.
pub open spec fn is_blank(c: char) -> bool {
    c == ' ' || c == '\t'
}

/// Length of the run of non-blank characters at the start of `s`.
pub open spec fn word_len(s: Seq<char>) -> nat
    decreases s.len(),
{
    if s.len() == 0 || is_blank(s[0]) {
        0
    } else {
        1 + word_len(s.drop_first())
    }
}

/// The words of a line: its maximal runs of non-blank characters, in order.
pub open spec fn words(s: Seq<char>) -> Seq<Seq<char>>
    decreases s.len(),
    via words_decreases
{
    if s.len() == 0 {
        seq![]
    } else if is_blank(s[0]) {
        words(s.drop_first())
    } else {
        let n = word_len(s);
        seq![s.take(n as int)] + words(s.skip(n as int))
    }
}

#[via_fn]
proof fn words_decreases(s: Seq<char>) {
    lemma_word_len_bounds(s);
}

/// The character sequences of a list of strings.
pub open spec fn texts(v: Seq<String>) -> Seq<Seq<char>> {
    v.map_values(|s: String| s@)
}

pub open spec fn blank_free(s: Seq<char>) -> bool {
    forall|i: int| 0 <= i < s.len() ==> !is_blank(#[trigger] s[i])
}

proof fn lemma_word_len_bounds(s: Seq<char>)
    ensures
        word_len(s) <= s.len(),
        s.len() > 0 && !is_blank(s[0]) ==> word_len(s) > 0,
    decreases s.len(),
{
    if s.len() > 0 && !is_blank(s[0]) {
        lemma_word_len_bounds(s.drop_first());
    }
}

/// A blank-free prefix followed by a blank (or by nothing) is the whole first word.
proof fn lemma_word_len_of_prefix(w: Seq<char>, rest: Seq<char>)
    requires
        blank_free(w),
        rest.len() == 0 || is_blank(rest[0]),
    ensures
        word_len(w + rest) == w.len(),
    decreases w.len(),
{
    if w.len() > 0 {
        assert((w + rest).drop_first() =~= w.drop_first() + rest);
        lemma_word_len_of_prefix(w.drop_first(), rest);
    }
}

/// A non-empty blank-free word followed by a blank (or by nothing) is split off whole.
proof fn lemma_words_of_prefix(w: Seq<char>, rest: Seq<char>)
    requires
        w.len() > 0,
        blank_free(w),
        rest.len() == 0 || is_blank(rest[0]),
    ensures
        words(w + rest) == seq![w] + words(rest),
{
    let s = w + rest;
    assert(!is_blank(s[0]));
    lemma_word_len_of_prefix(w, rest);
    assert(s.take(w.len() as int) =~= w);
    assert(s.skip(w.len() as int) =~= rest);
}

/// Splits a line into its words: leading and trailing blanks are dropped and
/// each run of blanks separates two words.
pub fn split_words(line: &str) -> (r: Vec<String>)
    ensures
        texts(r@) == words(line@),
{
    let n = line.unicode_len();
    let mut out: Vec<String> = Vec::new();
    let mut start: usize = 0;
    let mut i: usize = 0;
    proof {
        let outv = Seq::new(out.len() as nat, |k: int| out[k]@);
        assert(outv =~= Seq::<Seq<char>>::empty());
        assert(line@.subrange(0, n as int) =~= line@);
        assert(outv + words(line@) =~= words(line@));
    }
    while i < n
        invariant
            n == line@.len(),
            start <= i <= n,
            blank_free(line@.subrange(start as int, i as int)),
            out.len() <= i,
            ({
                let outv = Seq::new(out.len() as nat, |k: int| out[k]@);
                outv + words(line@.subrange(start as int, n as int)) == words(line@)
            }),
        decreases n - i,
    {
        let c = line.get_char(i);
        proof {
            let cur = line@.subrange(start as int, i as int);
            let rest = line@.subrange(i as int, n as int);
            assert(line@.subrange(start as int, n as int) =~= cur + rest);
            assert(rest[0] == c);
        }
        if c == ' ' || c == '\t' {
            if start < i {
                let w = String::from_str(line.substring_char(start, i));
                proof {
                    let cur = line@.subrange(start as int, i as int);
                    let rest = line@.subrange(i as int, n as int);
                    lemma_words_of_prefix(cur, rest);
                    let rest1 = line@.subrange(i + 1, n as int);
                    assert(rest.drop_first() =~= rest1);
                }
                let ghost before = Seq::new(out.len() as nat, |k: int| out[k]@);
                out.push(w);
                proof {
                    let after = Seq::new(out.len() as nat, |k: int| out[k]@);
                    assert(after =~= before + seq![line@.subrange(start as int, i as int)]);
                }
            } else {
                proof {
                    let rest = line@.subrange(i as int, n as int);
                    assert(rest.drop_first() =~= line@.subrange(i + 1, n as int));
                }
            }
            start = i + 1;
        } else {
            proof {
                assert(line@.subrange(start as int, i + 1) =~= line@.subrange(start as int, i as int).push(c));
            }
        }
        i = i + 1;
    }
    if start < n {
        let w = String::from_str(line.substring_char(start, n));
        proof {
            lemma_words_of_prefix(line@.subrange(start as int, n as int), seq![]);
            assert(line@.subrange(start as int, n as int) + seq![] =~= line@.subrange(start as int, n as int));
        }
        let ghost before = Seq::new(out.len() as nat, |k: int| out[k]@);
        out.push(w);
        proof {
            let after = Seq::new(out.len() as nat, |k: int| out[k]@);
            assert(after =~= before + seq![line@.subrange(start as int, n as int)]);
        }
    }
    proof {
        let outv = Seq::new(out.len() as nat, |k: int| out[k]@);
        assert(outv + words(seq![]) =~= outv);
        assert(line@.subrange(n as int, n as int) =~= Seq::<char>::empty());
        assert(outv == words(line@));
        assert(texts(out@) =~= outv);
    }
    out
}

/// A blank ends the first word of whatever stands before it.
proof fn lemma_word_len_before_blank(a: Seq<char>, x: Seq<char>)
    requires
        x.len() > 0,
        is_blank(x[0]),
    ensures
        word_len(a + x) == word_len(a),
    decreases a.len(),
{
    if a.len() > 0 && !is_blank(a[0]) {
        assert((a + x).drop_first() =~= a.drop_first() + x);
        lemma_word_len_before_blank(a.drop_first(), x);
    } else if a.len() == 0 {
        assert(a + x =~= x);
    }
}

/// Two tails that start with a blank and have the same words give the same
/// words after any common beginning.
proof fn lemma_words_same_tail(a: Seq<char>, x: Seq<char>, y: Seq<char>)
    requires
        x.len() > 0,
        is_blank(x[0]),
        y.len() > 0,
        is_blank(y[0]),
        words(x) == words(y),
    ensures
        words(a + x) == words(a + y),
    decreases a.len(),
{
    if a.len() == 0 {
        assert(a + x =~= x);
        assert(a + y =~= y);
    } else if is_blank(a[0]) {
        assert((a + x).drop_first() =~= a.drop_first() + x);
        assert((a + y).drop_first() =~= a.drop_first() + y);
        lemma_words_same_tail(a.drop_first(), x, y);
    } else {
        let k = word_len(a);
        lemma_word_len_before_blank(a, x);
        lemma_word_len_before_blank(a, y);
        lemma_word_len_bounds(a);
        assert((a + x).take(k as int) =~= a.take(k as int));
        assert((a + y).take(k as int) =~= a.take(k as int));
        assert((a + x).skip(k as int) =~= a.skip(k as int) + x);
        assert((a + y).skip(k as int) =~= a.skip(k as int) + y);
        lemma_words_same_tail(a.skip(k as int), x, y);
    }
}

/// Splitting ignores how long a run of blanks is and which blanks make it up:
/// two blanks in a row split a line exactly as a single space does.
pub proof fn lemma_blank_run_collapses(a: Seq<char>, r: Seq<char>, b1: char, b2: char)
    requires
        is_blank(b1),
        is_blank(b2),
    ensures
        words(a + seq![b1, b2] + r) == words(a + seq![' '] + r),
{
    let x = seq![b1, b2] + r;
    let y = seq![' '] + r;
    assert(x.drop_first() =~= seq![b2] + r);
    assert((seq![b2] + r).drop_first() =~= r);
    assert(y.drop_first() =~= r);
    assert(x[0] == b1);
    assert((seq![b2] + r)[0] == b2);
    assert(y[0] == ' ');
    assert(words(seq![b2] + r) == words(r));
    assert(words(x) == words(seq![b2] + r));
    assert(words(y) == words(r));
    lemma_words_same_tail(a, x, y);
    assert(a + seq![b1, b2] + r =~= a + x);
    assert(a + seq![' '] + r =~= a + y);
}

/// A line as read, without its terminator (`\n` or `\r\n`).
pub open spec fn line_body(s: Seq<char>) -> Seq<char> {
    if s.len() >= 2 && s[s.len() - 2] == '\r' && s.last() == '\n' {
        s.take(s.len() - 2)
    } else if s.len() >= 1 && s.last() == '\n' {
        s.drop_last()
    } else {
        s
    }
}

/// Drops the line terminator from a line as read.
pub fn strip_line_end(raw: &str) -> (r: &str)
    ensures
        r@ == line_body(raw@),
{
    let n = raw.unicode_len();
    if n >= 2 && raw.get_char(n - 2) == '\r' && raw.get_char(n - 1) == '\n' {
        raw.substring_char(0, n - 2)
    } else if n >= 1 && raw.get_char(n - 1) == '\n' {
        raw.substring_char(0, n - 1)
    } else {
        raw
    }
}

} // verus!
