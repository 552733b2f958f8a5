//! Sequence-of-characters utilities shared by the record parser and the
//! slug generator: first-occurrence search, occurrence removal,
//! white-space trimming, and separator splitting, each with a
//! specification-level definition and a verified executable counterpart.

use vstd::prelude::*;
use vstd::string::*;

use crate::chars::is_white_space;

verus! {

/// `tok` occurs in `s` starting at position `i`.
pub open spec fn occurs_at(s: Seq<char>, tok: Seq<char>, i: int) -> bool {
    0 <= i && i + tok.len() <= s.len() && s.subrange(i, i + tok.len() as int) == tok
}

/// `tok` occurs somewhere in `s`.
pub open spec fn has_sub(s: Seq<char>, tok: Seq<char>) -> bool {
    exists|i: int| occurs_at(s, tok, i)
}

/// Position of the first occurrence of `tok` in `s`, if any.
pub open spec fn spec_find(s: Seq<char>, tok: Seq<char>) -> Option<int>
    decreases s.len(),
{
    if occurs_at(s, tok, 0) {
        Some(0)
    } else if s.len() == 0 {
        None
    } else {
        match spec_find(s.skip(1), tok) {
            Some(i) => Some(i + 1),
            None => None,
        }
    }
}

/// Occurrences in a suffix of `s` are occurrences in `s`, shifted.
pub proof fn lemma_occurs_at_skip(s: Seq<char>, tok: Seq<char>, k: int, j: int)
    requires
        0 <= k <= s.len(),
        0 <= j,
    ensures
        occurs_at(s.skip(k), tok, j) <==> occurs_at(s, tok, j + k),
{
    if j + k + tok.len() <= s.len() {
        assert(s.skip(k).subrange(j, j + tok.len() as int)
            =~= s.subrange(j + k, j + k + tok.len() as int));
    }
}

/// `spec_find` returns the least occurrence position, or `None` exactly
/// when there is no occurrence.
pub proof fn lemma_find_characterizes(s: Seq<char>, tok: Seq<char>)
    ensures
        match spec_find(s, tok) {
            Some(i) => occurs_at(s, tok, i)
                && (forall|j: int| 0 <= j < i ==> !occurs_at(s, tok, j)),
            None => !has_sub(s, tok),
        },
    decreases s.len(),
{
    if occurs_at(s, tok, 0) {
    } else if s.len() == 0 {
        assert forall|i: int| !occurs_at(s, tok, i) by {}
    } else {
        lemma_find_characterizes(s.skip(1), tok);
        assert forall|j: int| 0 <= j implies
            (occurs_at(s.skip(1), tok, j) <==> occurs_at(s, tok, j + 1)) by {
            lemma_occurs_at_skip(s, tok, 1, j);
        }
        match spec_find(s.skip(1), tok) {
            Some(i) => {
                assert(occurs_at(s.skip(1), tok, i));
                assert(occurs_at(s, tok, i + 1));
                assert forall|j: int| 0 <= j < i + 1 implies !occurs_at(s, tok, j) by {
                    if j > 0 {
                        assert(!occurs_at(s.skip(1), tok, j - 1));
                    }
                }
            },
            None => {
                assert forall|j: int| !occurs_at(s, tok, j) by {
                    if j > 0 {
                        assert(!occurs_at(s.skip(1), tok, j - 1));
                    }
                }
            },
        }
    }
}

/// A first occurrence pins `spec_find` down.
pub proof fn lemma_find_of_first(s: Seq<char>, tok: Seq<char>, i: int)
    requires
        occurs_at(s, tok, i),
        forall|j: int| 0 <= j < i ==> !occurs_at(s, tok, j),
    ensures
        spec_find(s, tok) == Some(i),
{
    lemma_find_characterizes(s, tok);
    match spec_find(s, tok) {
        Some(k) => {
            if k < i {
                assert(!occurs_at(s, tok, k));
            } else if k > i {
                assert(!occurs_at(s, tok, i));
            }
        },
        None => {
            assert(has_sub(s, tok));
        },
    }
}

/// No occurrence anywhere means `spec_find` is `None`.
pub proof fn lemma_find_none(s: Seq<char>, tok: Seq<char>)
    requires
        !has_sub(s, tok),
    ensures
        spec_find(s, tok) is None,
{
    lemma_find_characterizes(s, tok);
}

/// Whether `tok` occurs in `s` at character position `i`.
pub fn matches_at(s: &str, i: usize, tok: &str) -> (r: bool)
    requires
        i <= s@.len(),
    ensures
        r == occurs_at(s@, tok@, i as int),
{
    let n = s.unicode_len();
    let m = tok.unicode_len();
    if m > n - i {
        assert(!occurs_at(s@, tok@, i as int));
        return false;
    }
    let mut k: usize = 0;
    while k < m
        invariant
            k <= m,
            i + m <= n,
            n == s@.len(),
            m == tok@.len(),
            forall|t: int| 0 <= t < k ==> s@[i + t] == tok@[t],
        decreases m - k,
    {
        if s.get_char(i + k) != tok.get_char(k) {
            assert(s@[i + k as int] != tok@[k as int]);
            assert(!occurs_at(s@, tok@, i as int)) by {
                if occurs_at(s@, tok@, i as int) {
                    assert(s@.subrange(i as int, i + m as int)[k as int] == tok@[k as int]);
                }
            }
            return false;
        }
        k = k + 1;
    }
    assert(s@.subrange(i as int, i + m as int) =~= tok@);
    true
}

/// Character position of the first occurrence of `tok` in `s`, if any.
pub fn find_sub(s: &str, tok: &str) -> (r: Option<usize>)
    ensures
        match r {
            Some(i) => spec_find(s@, tok@) == Some(i as int),
            None => spec_find(s@, tok@) is None,
        },
{
    let n = s.unicode_len();
    if tok.unicode_len() == 0 {
        proof {
            assert(s@.subrange(0, 0) =~= tok@);
            lemma_find_of_first(s@, tok@, 0);
        }
        return Some(0);
    }
    let mut i: usize = 0;
    while i < n
        invariant
            n == s@.len(),
            i <= n,
            forall|j: int| 0 <= j < i ==> !occurs_at(s@, tok@, j),
        decreases n - i,
    {
        if matches_at(s, i, tok) {
            proof {
                lemma_find_of_first(s@, tok@, i as int);
            }
            return Some(i);
        }
        i = i + 1;
    }
    proof {
        assert forall|j: int| !occurs_at(s@, tok@, j) by {}
        lemma_find_none(s@, tok@);
    }
    None
}

/// Whether `tok` occurs anywhere in `s`.
pub fn contains_sub(s: &str, tok: &str) -> (r: bool)
    ensures
        r == has_sub(s@, tok@),
{
    proof {
        lemma_find_characterizes(s@, tok@);
    }
    find_sub(s, tok).is_some()
}

/// The text before and after the first occurrence of `tok`, if any.
pub open spec fn spec_split_once(s: Seq<char>, tok: Seq<char>) -> Option<(Seq<char>, Seq<char>)> {
    match spec_find(s, tok) {
        Some(i) => Some((s.subrange(0, i), s.subrange(i + tok.len() as int, s.len() as int))),
        None => None,
    }
}

/// Splits `s` at the first occurrence of `tok`; the two pieces exclude the
/// occurrence itself.
pub fn split_once_at<'a>(s: &'a str, tok: &'a str) -> (r: Option<(&'a str, &'a str)>)
    ensures
        match r {
            Some((a, b)) => spec_split_once(s@, tok@) == Some((a@, b@)),
            None => spec_split_once(s@, tok@) is None,
        },
{
    match find_sub(s, tok) {
        Some(i) => {
            proof {
                lemma_find_characterizes(s@, tok@);
            }
            let m = tok.unicode_len();
            let n = s.unicode_len();
            let left = s.substring_char(0, i);
            let right = s.substring_char(i + m, n);
            Some((left, right))
        },
        None => None,
    }
}

/// `s` with every occurrence of `tok` removed, scanning left to right and
/// never rescanning removed text.
pub open spec fn spec_remove_all(s: Seq<char>, tok: Seq<char>) -> Seq<char>
    decreases s.len(),
{
    if tok.len() == 0 || s.len() == 0 {
        s
    } else if occurs_at(s, tok, 0) {
        spec_remove_all(s.skip(tok.len() as int), tok)
    } else {
        seq![s[0]] + spec_remove_all(s.skip(1), tok)
    }
}

/// Removing a token that never occurs changes nothing.
pub proof fn lemma_remove_all_absent(s: Seq<char>, tok: Seq<char>)
    requires
        !has_sub(s, tok),
    ensures
        spec_remove_all(s, tok) == s,
    decreases s.len(),
{
    if tok.len() == 0 || s.len() == 0 {
    } else {
        assert(!occurs_at(s, tok, 0));
        assert forall|j: int| !occurs_at(s.skip(1), tok, j) by {
            if j >= 0 {
                lemma_occurs_at_skip(s, tok, 1, j);
            }
        }
        lemma_remove_all_absent(s.skip(1), tok);
        assert(seq![s[0]] + s.skip(1) =~= s);
    }
}

/// `s` with every occurrence of `tok` removed.
pub fn remove_all(s: &str, tok: &str) -> (r: String)
    ensures
        r@ == spec_remove_all(s@, tok@),
{
    let n = s.unicode_len();
    let m = tok.unicode_len();
    let mut out = String::new();
    if m == 0 {
        out.append(s);
        return out;
    }
    let mut i: usize = 0;
    proof {
        assert(s@.skip(0) =~= s@);
        assert(out@ + spec_remove_all(s@, tok@) =~= spec_remove_all(s@, tok@));
    }
    while i < n
        invariant
            n == s@.len(),
            m == tok@.len(),
            m > 0,
            i <= n,
            spec_remove_all(s@, tok@) == out@ + spec_remove_all(s@.skip(i as int), tok@),
        decreases n - i,
    {
        let ghost rest = s@.skip(i as int);
        if matches_at(s, i, tok) {
            proof {
                lemma_occurs_at_skip(s@, tok@, i as int, 0);
                assert(occurs_at(rest, tok@, 0));
                assert(rest.skip(m as int) =~= s@.skip(i + m as int));
            }
            i = i + m;
        } else {
            proof {
                lemma_occurs_at_skip(s@, tok@, i as int, 0);
                assert(!occurs_at(rest, tok@, 0));
                assert(rest[0] == s@[i as int]);
                assert(rest.skip(1) =~= s@.skip(i + 1));
            }
            let piece = s.substring_char(i, i + 1);
            proof {
                assert(piece@ =~= seq![s@[i as int]]);
            }
            out.append(piece);
            i = i + 1;
        }
    }
    proof {
        assert(s@.skip(n as int) =~= Seq::<char>::empty());
        assert(out@ + Seq::<char>::empty() =~= out@);
    }
    out
}

/// `s` without its leading white space.
pub open spec fn spec_trim_start(s: Seq<char>) -> Seq<char>
    decreases s.len(),
{
    if s.len() > 0 && is_white_space(s[0]) {
        spec_trim_start(s.skip(1))
    } else {
        s
    }
}

/// `s` without its trailing white space.
pub open spec fn spec_trim_end(s: Seq<char>) -> Seq<char>
    decreases s.len(),
{
    if s.len() > 0 && is_white_space(s[s.len() - 1]) {
        spec_trim_end(s.take(s.len() - 1))
    } else {
        s
    }
}

/// `s` without leading or trailing Unicode white space.
pub open spec fn spec_trim(s: Seq<char>) -> Seq<char> {
    spec_trim_end(spec_trim_start(s))
}

/// `s` without leading or trailing Unicode white space.
pub fn trim<'a>(s: &'a str) -> (r: &'a str)
    ensures
        r@ == spec_trim(s@),
{
    let n = s.unicode_len();
    let mut a: usize = 0;
    proof {
        assert(s@.skip(0) =~= s@);
    }
    while a < n && crate::chars::white_space(s.get_char(a))
        invariant
            n == s@.len(),
            a <= n,
            spec_trim_start(s@) == spec_trim_start(s@.skip(a as int)),
        decreases n - a,
    {
        proof {
            let rest = s@.skip(a as int);
            assert(rest[0] == s@[a as int]);
            assert(rest.skip(1) =~= s@.skip(a + 1));
        }
        a = a + 1;
    }
    proof {
        let rest = s@.skip(a as int);
        if a < n {
            assert(rest[0] == s@[a as int]);
        }
        assert(spec_trim_start(rest) == rest);
    }
    // Now s@.skip(a) == spec_trim_start(s@); trim its end.
    let mut b: usize = n;
    while b > a && crate::chars::white_space(s.get_char(b - 1))
        invariant
            n == s@.len(),
            a <= b <= n,
            spec_trim_start(s@) == s@.skip(a as int),
            spec_trim_end(s@.subrange(a as int, n as int))
                == spec_trim_end(s@.subrange(a as int, b as int)),
        decreases b,
    {
        proof {
            let cur = s@.subrange(a as int, b as int);
            assert(cur[cur.len() - 1] == s@[b - 1]);
            assert(cur.take(cur.len() - 1) =~= s@.subrange(a as int, b - 1));
        }
        b = b - 1;
    }
    proof {
        let cur = s@.subrange(a as int, b as int);
        if b > a {
            assert(cur[cur.len() - 1] == s@[b - 1]);
        }
        assert(spec_trim_end(cur) == cur);
        assert(s@.skip(a as int) =~= s@.subrange(a as int, n as int));
    }
    s.substring_char(a, b)
}

/// The pieces of `s` between occurrences of the separator `sep`; text with
/// no separator is a single piece, so the result is never empty.
pub open spec fn spec_split_at_char(s: Seq<char>, sep: char) -> Seq<Seq<char>>
    decreases s.len(),
{
    match spec_find(s, seq![sep]) {
        Some(i) => if 0 <= i < s.len() {
            seq![s.subrange(0, i)]
                + spec_split_at_char(s.subrange(i + 1, s.len() as int), sep)
        } else {
            seq![s]
        },
        None => seq![s],
    }
}

/// The pieces of `s` between occurrences of `sep`, in order.
pub fn split_at_char(s: &str, sep: char) -> (r: Vec<String>)
    ensures
        r@.map_values(|p: String| p@) == spec_split_at_char(s@, sep),
{
    let mut out: Vec<String> = Vec::new();
    let mut sep_str = String::new();
    push_char(&mut sep_str, sep);
    proof {
        assert(sep_str@ =~= seq![sep]);
    }
    let mut rest: String = String::new();
    rest.append(s);
    proof {
        assert(rest@ =~= s@);
    }
    loop
        invariant
            sep_str@ == seq![sep],
            spec_split_at_char(s@, sep)
                == out@.map_values(|p: String| p@) + spec_split_at_char(rest@, sep),
        decreases rest@.len(),
    {
        match split_once_at(rest.as_str(), sep_str.as_str()) {
            Some((piece, after)) => {
                proof {
                    lemma_find_characterizes(rest@, seq![sep]);
                }
                let mut piece_owned = String::new();
                piece_owned.append(piece);
                let mut after_owned = String::new();
                after_owned.append(after);
                let ghost old_out = out@;
                let ghost old_rest = rest@;
                out.push(piece_owned);
                rest = after_owned;
                proof {
                    assert(out@.map_values(|p: String| p@)
                        =~= old_out.map_values(|p: String| p@) + seq![piece@]);
                    assert(spec_split_at_char(old_rest, sep)
                        == seq![piece@] + spec_split_at_char(rest@, sep));
                    assert(old_out.map_values(|p: String| p@)
                            + (seq![piece@] + spec_split_at_char(rest@, sep))
                        =~= (old_out.map_values(|p: String| p@) + seq![piece@])
                            + spec_split_at_char(rest@, sep));
                }
            },
            None => {
                let mut last = String::new();
                last.append(rest.as_str());
                let ghost old_out = out@;
                out.push(last);
                proof {
                    assert(spec_split_at_char(rest@, sep) == seq![rest@]);
                    assert(out@.map_values(|p: String| p@)
                        =~= old_out.map_values(|p: String| p@) + seq![rest@]);
                }
                return out;
            },
        }
    }
}

/// No occurrence of `tok` starts strictly before the `tok` that follows
/// `prefix`: splitting `prefix + tok + anything` at `tok` cuts exactly
/// after `prefix`. An occurrence starting inside `prefix` lies entirely
/// within `prefix + tok`, so the condition does not depend on what
/// follows.
pub open spec fn boundary_clean(prefix: Seq<char>, tok: Seq<char>) -> bool {
    forall|i: int| 0 <= i < prefix.len() ==> !occurs_at(prefix + tok, tok, i)
}

/// Splitting `a + tok + b` at the first `tok` yields `a` and `b`, when no
/// occurrence of `tok` starts inside `a`.
pub proof fn lemma_split_once_concat(a: Seq<char>, tok: Seq<char>, b: Seq<char>)
    requires
        tok.len() > 0,
        boundary_clean(a, tok),
    ensures
        spec_split_once(a + tok + b, tok) == Some((a, b)),
{
    let s = a + tok + b;
    let n = a.len() as int;
    let m = tok.len() as int;
    assert(s.subrange(n, n + m) =~= tok);
    assert(occurs_at(s, tok, n));
    assert forall|j: int| 0 <= j < n implies !occurs_at(s, tok, j) by {
        if occurs_at(s, tok, j) {
            assert(s.subrange(j, j + m) =~= (a + tok).subrange(j, j + m));
            assert(occurs_at(a + tok, tok, j));
        }
    }
    lemma_find_of_first(s, tok, n);
    assert(s.subrange(0, n) =~= a);
    assert(s.subrange(n + m, s.len() as int) =~= b);
}

/// Removing a token from text it leads is removing it from the rest.
pub proof fn lemma_remove_all_prefix(s: Seq<char>, tok: Seq<char>)
    requires
        tok.len() > 0,
    ensures
        spec_remove_all(tok + s, tok) == spec_remove_all(s, tok),
{
    let u = tok + s;
    assert(u.subrange(0, tok.len() as int) =~= tok);
    assert(occurs_at(u, tok, 0));
    assert(u.skip(tok.len() as int) =~= s);
}

/// Trimming changes nothing when neither end is white space.
pub proof fn lemma_trim_identity(s: Seq<char>)
    requires
        s.len() > 0 ==> !is_white_space(s[0]) && !is_white_space(s[s.len() - 1]),
    ensures
        spec_trim(s) == s,
{
    assert(spec_trim_start(s) == s);
    assert(spec_trim_end(s) == s);
}

/// The pieces joined with the separator `sep` between them.
pub open spec fn spec_join(parts: Seq<Seq<char>>, sep: char) -> Seq<char>
    decreases parts.len(),
{
    if parts.len() == 0 {
        Seq::empty()
    } else if parts.len() == 1 {
        parts[0]
    } else {
        parts[0] + seq![sep] + spec_join(parts.skip(1), sep)
    }
}

/// Joining one more piece appends a separator and the piece.
pub proof fn lemma_join_snoc(parts: Seq<Seq<char>>, sep: char, last: Seq<char>)
    requires
        parts.len() >= 1,
    ensures
        spec_join(parts.push(last), sep) == spec_join(parts, sep) + seq![sep] + last,
    decreases parts.len(),
{
    let whole = parts.push(last);
    if parts.len() == 1 {
        assert(whole.len() == 2);
        assert(whole.skip(1) =~= seq![last]);
        assert(spec_join(whole.skip(1), sep) == last);
        assert(whole[0] == parts[0]);
    } else {
        assert(whole.skip(1) =~= parts.skip(1).push(last));
        lemma_join_snoc(parts.skip(1), sep, last);
        assert(whole[0] == parts[0]);
        assert(spec_join(whole, sep)
            == parts[0] + seq![sep] + (spec_join(parts.skip(1), sep) + seq![sep] + last));
        assert(parts[0] + seq![sep] + (spec_join(parts.skip(1), sep) + seq![sep] + last)
            =~= (parts[0] + seq![sep] + spec_join(parts.skip(1), sep)) + seq![sep] + last);
    }
}

/// Splitting a join at its separator recovers the pieces, when none of
/// the pieces holds the separator.
pub proof fn lemma_split_join(parts: Seq<Seq<char>>, sep: char)
    requires
        parts.len() >= 1,
        forall|i: int, j: int|
            0 <= i < parts.len() && 0 <= j < parts[i].len() ==> parts[i][j] != sep,
    ensures
        spec_split_at_char(spec_join(parts, sep), sep) == parts,
    decreases parts.len(),
{
    let s = spec_join(parts, sep);
    let tok = seq![sep];
    if parts.len() == 1 {
        assert(s == parts[0]);
        assert forall|i: int| !occurs_at(s, tok, i) by {
            if occurs_at(s, tok, i) {
                assert(s.subrange(i, i + 1)[0] == s[i]);
                assert(s[i] == sep);
                assert(parts[0][i] != sep);
            }
        }
        lemma_find_none(s, tok);
        assert(spec_split_at_char(s, sep) =~= parts);
    } else {
        let head = parts[0];
        let rest = spec_join(parts.skip(1), sep);
        let n = head.len() as int;
        assert(s == head + tok + rest);
        assert(s.subrange(n, n + 1) =~= tok);
        assert(occurs_at(s, tok, n));
        assert forall|j: int| 0 <= j < n implies !occurs_at(s, tok, j) by {
            if occurs_at(s, tok, j) {
                assert(s.subrange(j, j + 1)[0] == s[j]);
                assert(s[j] == sep);
                assert(head[j] != sep);
            }
        }
        lemma_find_of_first(s, tok, n);
        assert(s.subrange(0, n) =~= head);
        assert(s.subrange(n + 1, s.len() as int) =~= rest);
        assert forall|i: int, j: int|
            0 <= i < parts.skip(1).len() && 0 <= j < parts.skip(1)[i].len() implies
            parts.skip(1)[i][j] != sep by {
            assert(parts.skip(1)[i] == parts[i + 1]);
        }
        lemma_split_join(parts.skip(1), sep);
        assert(spec_split_at_char(s, sep)
            =~= seq![head] + spec_split_at_char(rest, sep));
        assert(seq![head] + parts.skip(1) =~= parts);
    }
}

/// Relies on `String::push`, which appends one character to the string.
#[verifier::external_body]
pub(crate) fn push_char(s: &mut String, c: char)
    ensures
        final(s)@ == old(s)@.push(c),
{
    s.push(c);
}

/// Whether two pieces of text hold the same characters.
pub fn str_eq(a: &str, b: &str) -> (r: bool)
    ensures
        r == (a@ == b@),
{
    let n = a.unicode_len();
    let m = b.unicode_len();
    if n != m {
        return false;
    }
    let mut i: usize = 0;
    while i < n
        invariant
            n == a@.len(),
            n == b@.len(),
            i <= n,
            forall|j: int| 0 <= j < i ==> a@[j] == b@[j],
        decreases n - i,
    {
        if a.get_char(i) != b.get_char(i) {
            return false;
        }
        i = i + 1;
    }
    proof {
        assert(a@ =~= b@);
    }
    true
}

} // verus!
