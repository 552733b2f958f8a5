//! Slug construction: the normalized, URL-safe, lowercase-hyphenated form
//! of a title used to name output files. A title is lowercased first and
//! filtered to ASCII second, so the two characters whose Unicode
//! lowercase holds an ASCII letter keep that letter while every other
//! non-ASCII character is dropped; ASCII whitespace becomes a hyphen,
//! and every remaining character that is neither alphanumeric nor a
//! hyphen is stripped.

use vstd::prelude::*;
use vstd::string::*;

use crate::chars::{
    ascii_alnum, ascii_char, ascii_lower, ascii_ws, is_ascii_alnum, is_ascii_char, is_ascii_ws,
    to_ascii_lower,
};
use crate::text::push_char;

verus! {

/// What one input character contributes to the slug: nothing, a hyphen,
/// or its lowercase self. Lowercasing happens before the ASCII filter:
/// the Kelvin sign, whose Unicode lowercase is the letter `k`, and the
/// dotted capital `I`, whose Unicode lowercase is the letter `i` with a
/// combining dot that the filter then drops, contribute those letters;
/// every other non-ASCII character (its lowercase being non-ASCII too)
/// contributes nothing.
pub open spec fn slug_char(c: char) -> Seq<char> {
    if !is_ascii_char(c) {
        if c == '\u{212a}' {
            seq!['k']
        } else if c == '\u{130}' {
            seq!['i']
        } else {
            Seq::empty()
        }
    } else if is_ascii_ws(c) {
        seq!['-']
    } else if is_ascii_alnum(to_ascii_lower(c)) || c == '-' {
        seq![to_ascii_lower(c)]
    } else {
        Seq::empty()
    }
}

/// The slug of `s`: each character's contribution, in order.
pub open spec fn spec_slugify(s: Seq<char>) -> Seq<char>
    decreases s.len(),
{
    if s.len() == 0 {
        Seq::empty()
    } else {
        slug_char(s[0]) + spec_slugify(s.skip(1))
    }
}

/// The slug of a title, built character by character.
pub fn slugify(s: &str) -> (r: String)
    ensures
        r@ == spec_slugify(s@),
{
    let n = s.unicode_len();
    let mut out = String::new();
    proof {
        assert(s@.skip(0) =~= s@);
        assert(out@ + spec_slugify(s@) =~= spec_slugify(s@));
    }
    let mut i: usize = 0;
    while i < n
        invariant
            n == s@.len(),
            i <= n,
            spec_slugify(s@) == out@ + spec_slugify(s@.skip(i as int)),
        decreases n - i,
    {
        let c = s.get_char(i);
        proof {
            let rest = s@.skip(i as int);
            assert(rest[0] == s@[i as int]);
            assert(rest.skip(1) =~= s@.skip(i + 1));
        }
        if ascii_char(c) {
            if ascii_ws(c) {
                push_char(&mut out, '-');
            } else {
                let l = ascii_lower(c);
                if ascii_alnum(l) || c == '-' {
                    push_char(&mut out, l);
                }
            }
        } else if c == '\u{212a}' {
            push_char(&mut out, 'k');
        } else if c == '\u{130}' {
            push_char(&mut out, 'i');
        }
        i = i + 1;
    }
    proof {
        assert(s@.skip(n as int) =~= Seq::<char>::empty());
        assert(out@ + Seq::<char>::empty() =~= out@);
    }
    out
}

/// A character that the slug transform maps to itself alone.
pub open spec fn slug_stable(c: char) -> bool {
    slug_char(c) == seq![c]
}

/// Every character of a slug is itself slug-stable.
pub proof fn lemma_slugify_chars_stable(s: Seq<char>)
    ensures
        forall|i: int| 0 <= i < spec_slugify(s).len() ==> #[trigger] slug_stable(spec_slugify(s)[i]),
    decreases s.len(),
{
    if s.len() == 0 {
    } else {
        lemma_slugify_chars_stable(s.skip(1));
        let head = slug_char(s[0]);
        let rec = spec_slugify(s.skip(1));
        assert(spec_slugify(s) == head + rec);
        assert forall|i: int| 0 <= i < spec_slugify(s).len() implies
            slug_stable(spec_slugify(s)[i]) by {
            if i < head.len() {
                let c = s[0];
                assert(spec_slugify(s)[i] == head[i]);
                if !is_ascii_char(c) {
                    if c == '\u{212a}' {
                        assert(head[i] == 'k');
                        assert(slug_char('k') =~= seq!['k']);
                    } else if c == '\u{130}' {
                        assert(head[i] == 'i');
                        assert(slug_char('i') =~= seq!['i']);
                    }
                } else if is_ascii_ws(c) {
                    assert(head[i] == '-');
                    assert(slug_char('-') =~= seq!['-']);
                } else if is_ascii_alnum(to_ascii_lower(c)) || c == '-' {
                    let l = to_ascii_lower(c);
                    assert(head[i] == l);
                    assert(slug_char(l) =~= seq![l]);
                }
            } else {
                assert(spec_slugify(s)[i] == rec[i - head.len()]);
                assert(slug_stable(rec[i - head.len()]));
            }
        }
    }
}

/// The slug transform leaves a text of slug-stable characters unchanged.
pub proof fn lemma_slugify_of_stable(s: Seq<char>)
    requires
        forall|i: int| 0 <= i < s.len() ==> #[trigger] slug_stable(s[i]),
    ensures
        spec_slugify(s) == s,
    decreases s.len(),
{
    if s.len() == 0 {
        assert(spec_slugify(s) =~= s);
    } else {
        assert(slug_stable(s[0]));
        lemma_slugify_of_stable(s.skip(1));
        assert(slug_char(s[0]) + s.skip(1) =~= s);
    }
}

/// Slug construction is idempotent: the slug of a slug is that slug.
pub proof fn lemma_slugify_idempotent(s: Seq<char>)
    ensures
        spec_slugify(spec_slugify(s)) == spec_slugify(s),
{
    lemma_slugify_chars_stable(s);
    lemma_slugify_of_stable(spec_slugify(s));
}

} // verus!
