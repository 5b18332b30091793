use vstd::prelude::*;
use vstd::string::*;

verus! {

/// Separator between the directories of the search path.
pub open spec fn is_list_sep(c: char) -> bool {
    c == ':'
}

/// Length of the first entry of a search-path list (up to the first separator).
pub open spec fn entry_len(s: Seq<char>) -> nat
    decreases s.len(),
{
    if s.len() == 0 || is_list_sep(s[0]) {
        0
    } else {
        1 + entry_len(s.drop_first())
    }
}

/// The directories of a search-path value: the pieces between separators,
/// in order, empty pieces included (an empty value is one empty piece).
pub open spec fn path_entries(s: Seq<char>) -> Seq<Seq<char>>
    decreases s.len(),
    via path_entries_decreases
{
    let n = entry_len(s);
    if n >= s.len() {
        seq![s]
    } else {
        seq![s.take(n as int)] + path_entries(s.skip(n as int + 1))
    }
}

#[via_fn]
proof fn path_entries_decreases(s: Seq<char>) {
}

pub open spec fn sep_free(s: Seq<char>) -> bool {
    forall|i: int| 0 <= i < s.len() ==> !is_list_sep(#[trigger] s[i])
}

proof fn lemma_entry_len_of_prefix(w: Seq<char>, rest: Seq<char>)
    requires
        sep_free(w),
        rest.len() == 0 || is_list_sep(rest[0]),
    ensures
        entry_len(w + rest) == w.len(),
    decreases w.len(),
{
    if w.len() > 0 {
        assert((w + rest).drop_first() =~= w.drop_first() + rest);
        lemma_entry_len_of_prefix(w.drop_first(), rest);
    }
}

/// An entry followed by a separator is split off, and the rest is split after it.
proof fn lemma_entries_of_prefix(w: Seq<char>, rest: Seq<char>)
    requires
        sep_free(w),
        rest.len() > 0,
        is_list_sep(rest[0]),
    ensures
        path_entries(w + rest) == seq![w] + path_entries(rest.drop_first()),
{
    let s = w + rest;
    lemma_entry_len_of_prefix(w, rest);
    assert(s.take(w.len() as int) =~= w);
    assert(s.skip(w.len() as int + 1) =~= rest.drop_first());
}

/// A value without separators is a single entry.
proof fn lemma_entries_single(w: Seq<char>)
    requires
        sep_free(w),
    ensures
        path_entries(w) == seq![w],
{
    lemma_entry_len_of_prefix(w, seq![]);
    assert(w + seq![] =~= w);
}

/// `name` placed in directory `dir`: an absolute `name` stands alone, and a
/// slash is put between the two unless `dir` is empty or already ends in one.
pub open spec fn joined(dir: Seq<char>, name: Seq<char>) -> Seq<char> {
    if name.len() > 0 && name[0] == '/' {
        name
    } else if dir.len() == 0 || dir.last() == '/' {
        dir + name
    } else {
        dir + seq!['/'] + name
    }
}

/// The files tried, in order, when looking `command` up on the search path
/// `path_var` (`None` when the search path is unset).
pub open spec fn candidates(path_var: Option<Seq<char>>, command: Seq<char>) -> Seq<Seq<char>> {
    match path_var {
        None => seq![],
        Some(p) => path_entries(p).map_values(|d: Seq<char>| joined(d, command)),
    }
}

/// The characters of an optional environment value.
pub open spec fn value_of(v: Option<&str>) -> Option<Seq<char>> {
    match v {
        None => None,
        Some(s) => Some(s@),
    }
}

/// The probe handed to the resolver answered `answer` for the file `file`.
pub open spec fn probed<F: Fn(&str) -> bool>(probe: F, file: Seq<char>, answer: bool) -> bool {
    exists|q: &str| q@ == file && #[trigger] call_ensures(probe, (q,), answer)
}

/// Splits a search-path value into its directories.
pub fn split_search_path(value: &str) -> (r: Vec<String>)
    ensures
        r.len() == path_entries(value@).len(),
        forall|i: int| 0 <= i < r.len() ==> (#[trigger] r[i])@ == path_entries(value@)[i],
{
    let n = value.unicode_len();
    let mut out: Vec<String> = Vec::new();
    let mut start: usize = 0;
    let mut i: usize = 0;
    proof {
        let outv = Seq::new(out.len() as nat, |k: int| out[k]@);
        assert(value@.subrange(0, n as int) =~= value@);
        assert(outv + path_entries(value@) =~= path_entries(value@));
    }
    while i < n
        invariant
            n == value@.len(),
            start <= i <= n,
            sep_free(value@.subrange(start as int, i as int)),
            out.len() <= i,
            ({
                let outv = Seq::new(out.len() as nat, |k: int| out[k]@);
                outv + path_entries(value@.subrange(start as int, n as int)) == path_entries(value@)
            }),
        decreases n - i,
    {
        let c = value.get_char(i);
        if c == ':' {
            let w = String::from_str(value.substring_char(start, i));
            proof {
                let cur = value@.subrange(start as int, i as int);
                let rest = value@.subrange(i as int, n as int);
                assert(value@.subrange(start as int, n as int) =~= cur + rest);
                lemma_entries_of_prefix(cur, rest);
                assert(rest.drop_first() =~= value@.subrange(i + 1, n as int));
            }
            let ghost before = Seq::new(out.len() as nat, |k: int| out[k]@);
            out.push(w);
            proof {
                let after = Seq::new(out.len() as nat, |k: int| out[k]@);
                assert(after =~= before + seq![value@.subrange(start as int, i as int)]);
                assert(value@.subrange(i + 1, i + 1) =~= Seq::<char>::empty());
            }
            start = i + 1;
        } else {
            proof {
                assert(value@.subrange(start as int, i + 1) =~= value@.subrange(
                    start as int,
                    i as int,
                ).push(c));
            }
        }
        i = i + 1;
    }
    let w = String::from_str(value.substring_char(start, n));
    proof {
        lemma_entries_single(value@.subrange(start as int, n as int));
    }
    let ghost before = Seq::new(out.len() as nat, |k: int| out[k]@);
    out.push(w);
    proof {
        let after = Seq::new(out.len() as nat, |k: int| out[k]@);
        assert(after =~= before + seq![value@.subrange(start as int, n as int)]);
    }
    out
}

/// Places `name` in the directory `dir`.
pub fn join_path(dir: &str, name: &str) -> (r: String)
    ensures
        r@ == joined(dir@, name@),
{
    let dn = dir.unicode_len();
    let nn = name.unicode_len();
    if nn > 0 && name.get_char(0) == '/' {
        String::from_str(name)
    } else if dn == 0 || dir.get_char(dn - 1) == '/' {
        String::from_str(dir).concat(name)
    } else {
        proof {
            reveal_strlit("/");
        }
        let r = String::from_str(dir).concat("/").concat(name);
        proof {
            assert(r@ =~= dir@ + seq!['/'] + name@);
        }
        r
    }
}

/// The files to try, in order, for `command` on the search path `path_var`.
pub fn search_candidates(path_var: Option<&str>, command: &str) -> (r: Vec<String>)
    ensures
        r.len() == candidates(value_of(path_var), command@).len(),
        forall|i: int|
            0 <= i < r.len() ==> (#[trigger] r[i])@ == candidates(value_of(path_var), command@)[i],
{
    let mut out: Vec<String> = Vec::new();
    match path_var {
        None => {},
        Some(p) => {
            let dirs = split_search_path(p);
            let mut i: usize = 0;
            while i < dirs.len()
                invariant
                    dirs.len() == path_entries(p@).len(),
                    forall|k: int|
                        0 <= k < dirs.len() ==> (#[trigger] dirs[k])@ == path_entries(p@)[k],
                    i <= dirs.len(),
                    out.len() == i,
                    forall|k: int|
                        0 <= k < i ==> (#[trigger] out[k])@ == joined(path_entries(p@)[k], command@),
                decreases dirs.len() - i,
            {
                out.push(join_path(dirs[i].as_str(), command));
                i = i + 1;
            }
        },
    }
    out
}

/// Looks `command` up on the search path `path_var`: the first candidate for
/// which `is_regular_file` answers true, or `None` when every candidate was
/// refused. With the search path unset nothing is found and nothing is probed.
pub fn resolve<F: Fn(&str) -> bool>(path_var: Option<&str>, command: &str, is_regular_file: F) -> (r:
    Option<String>)
    requires
        forall|q: &str| #[trigger] is_regular_file.requires((q,)),
    ensures
        ({
            let c = candidates(value_of(path_var), command@);
            match r {
                Some(found) => exists|i: int|
                    0 <= i < c.len() && found@ == c[i] && probed(is_regular_file, c[i], true)
                        && forall|j: int| 0 <= j < i ==> probed(is_regular_file, #[trigger] c[j], false),
                None => forall|j: int| 0 <= j < c.len() ==> probed(is_regular_file, #[trigger] c[j], false),
            }
        }),
        path_var is None ==> r is None,
{
    let cands = search_candidates(path_var, command);
    let ghost c = candidates(value_of(path_var), command@);
    let mut i: usize = 0;
    while i < cands.len()
        invariant
            c == candidates(value_of(path_var), command@),
            cands.len() == c.len(),
            forall|k: int| 0 <= k < cands.len() ==> (#[trigger] cands[k])@ == c[k],
            i <= cands.len(),
            forall|j: int| 0 <= j < i ==> probed(is_regular_file, #[trigger] c[j], false),
            forall|q: &str| #[trigger] is_regular_file.requires((q,)),
        decreases cands.len() - i,
    {
        let q = cands[i].as_str();
        let ok = is_regular_file(q);
        assert(call_ensures(is_regular_file, (q,), ok));
        assert(probed(is_regular_file, c[i as int], ok));
        if ok {
            let found = cands[i].clone();
            return Some(found);
        }
        i = i + 1;
    }
    None
}

/// Every file the resolver may return lies in a directory listed on the
/// search path: the `i`-th candidate is the command placed in the `i`-th entry.
pub proof fn lemma_candidates_lie_on_path(path_var: Seq<char>, command: Seq<char>, i: int)
    requires
        0 <= i < candidates(Some(path_var), command).len(),
    ensures
        i < path_entries(path_var).len(),
        candidates(Some(path_var), command)[i] == joined(path_entries(path_var)[i], command),
{
}

} // verus!
