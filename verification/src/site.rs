//! Batch record handling: parsing a whole directory's worth of record
//! texts with a skip-and-warn policy — one malformed record never stops
//! the rest — and ordering publications by date, most recent first, for
//! the pages that want that order.

use vstd::prelude::*;
use vstd::string::*;

use crate::date::{date_le, spec_date_le, Date};
use crate::publication::{
    parse_gobbet, spec_parse_gobbet, Delimiters, DelimitersView, ParseError, Publication,
    PublicationView,
};

verus! {

/// The publications of the record texts that parse, in input order;
/// failing texts contribute nothing.
pub open spec fn spec_collect_parsed(texts: Seq<Seq<char>>, d: DelimitersView) -> Seq<
    PublicationView,
>
    decreases texts.len(),
{
    if texts.len() == 0 {
        Seq::empty()
    } else {
        match spec_parse_gobbet(texts[0], d) {
            Ok(p) => seq![p] + spec_collect_parsed(texts.skip(1), d),
            Err(_) => spec_collect_parsed(texts.skip(1), d),
        }
    }
}

/// The failing record texts, each as its input position (counted from
/// `base`) with its error, in input order.
pub open spec fn spec_collect_errors(texts: Seq<Seq<char>>, d: DelimitersView, base: int) -> Seq<
    (int, ParseError),
>
    decreases texts.len(),
{
    if texts.len() == 0 {
        Seq::empty()
    } else {
        match spec_parse_gobbet(texts[0], d) {
            Ok(_) => spec_collect_errors(texts.skip(1), d, base + 1),
            Err(e) => seq![(base, e)] + spec_collect_errors(texts.skip(1), d, base + 1),
        }
    }
}

/// Collecting one more text appends its publication, if it parses.
proof fn lemma_collect_parsed_snoc(texts: Seq<Seq<char>>, d: DelimitersView, t: Seq<char>)
    ensures
        spec_collect_parsed(texts.push(t), d) == match spec_parse_gobbet(t, d) {
            Ok(p) => spec_collect_parsed(texts, d).push(p),
            Err(_) => spec_collect_parsed(texts, d),
        },
    decreases texts.len(),
{
    let whole = texts.push(t);
    if texts.len() == 0 {
        assert(whole[0] == t);
        assert(whole.skip(1) =~= Seq::<Seq<char>>::empty());
        assert(spec_collect_parsed(whole.skip(1), d) =~= Seq::<PublicationView>::empty());
        assert(spec_collect_parsed(texts, d) =~= Seq::<PublicationView>::empty());
        match spec_parse_gobbet(t, d) {
            Ok(p) => {
                assert(seq![p] + Seq::<PublicationView>::empty()
                    =~= Seq::<PublicationView>::empty().push(p));
            },
            Err(_) => {},
        }
    } else {
        assert(whole[0] == texts[0]);
        assert(whole.skip(1) =~= texts.skip(1).push(t));
        lemma_collect_parsed_snoc(texts.skip(1), d, t);
        assert(spec_collect_parsed(whole.skip(1), d)
            == spec_collect_parsed(texts.skip(1).push(t), d));
        match spec_parse_gobbet(texts[0], d) {
            Ok(p0) => {
                assert(spec_collect_parsed(whole, d)
                    == seq![p0] + spec_collect_parsed(whole.skip(1), d));
                assert(spec_collect_parsed(texts, d)
                    == seq![p0] + spec_collect_parsed(texts.skip(1), d));
                match spec_parse_gobbet(t, d) {
                    Ok(p) => {
                        assert(seq![p0] + spec_collect_parsed(texts.skip(1), d).push(p)
                            =~= (seq![p0] + spec_collect_parsed(texts.skip(1), d)).push(p));
                    },
                    Err(_) => {},
                }
            },
            Err(_) => {
                assert(spec_collect_parsed(whole, d) == spec_collect_parsed(whole.skip(1), d));
                assert(spec_collect_parsed(texts, d)
                    == spec_collect_parsed(texts.skip(1), d));
            },
        }
    }
}

/// Collecting one more text appends its error, if it fails.
proof fn lemma_collect_errors_snoc(
    texts: Seq<Seq<char>>,
    d: DelimitersView,
    t: Seq<char>,
    base: int,
)
    ensures
        spec_collect_errors(texts.push(t), d, base) == match spec_parse_gobbet(t, d) {
            Ok(_) => spec_collect_errors(texts, d, base),
            Err(e) => spec_collect_errors(texts, d, base).push(
                (base + texts.len(), e),
            ),
        },
    decreases texts.len(),
{
    let whole = texts.push(t);
    if texts.len() == 0 {
        assert(whole[0] == t);
        assert(whole.skip(1) =~= Seq::<Seq<char>>::empty());
        assert(spec_collect_errors(whole.skip(1), d, base + 1)
            =~= Seq::<(int, ParseError)>::empty());
        assert(spec_collect_errors(texts, d, base) =~= Seq::<(int, ParseError)>::empty());
        match spec_parse_gobbet(t, d) {
            Err(e) => {
                assert(seq![(base, e)] + Seq::<(int, ParseError)>::empty()
                    =~= Seq::<(int, ParseError)>::empty().push((base, e)));
            },
            Ok(_) => {},
        }
    } else {
        assert(whole[0] == texts[0]);
        assert(whole.skip(1) =~= texts.skip(1).push(t));
        lemma_collect_errors_snoc(texts.skip(1), d, t, base + 1);
        assert(spec_collect_errors(whole.skip(1), d, base + 1)
            == spec_collect_errors(texts.skip(1).push(t), d, base + 1));
        match spec_parse_gobbet(texts[0], d) {
            Err(e0) => {
                assert(spec_collect_errors(whole, d, base)
                    == seq![(base, e0)] + spec_collect_errors(whole.skip(1), d, base + 1));
                assert(spec_collect_errors(texts, d, base)
                    == seq![(base, e0)] + spec_collect_errors(texts.skip(1), d, base + 1));
                match spec_parse_gobbet(t, d) {
                    Err(e) => {
                        assert(seq![(base, e0)]
                            + spec_collect_errors(texts.skip(1), d, base + 1).push(
                            (base + texts.len(), e),
                        ) =~= (seq![(base, e0)] + spec_collect_errors(
                            texts.skip(1),
                            d,
                            base + 1,
                        )).push((base + texts.len(), e)));
                    },
                    Ok(_) => {},
                }
            },
            Ok(_) => {
                assert(spec_collect_errors(whole, d, base)
                    == spec_collect_errors(whole.skip(1), d, base + 1));
                assert(spec_collect_errors(texts, d, base)
                    == spec_collect_errors(texts.skip(1), d, base + 1));
            },
        }
    }
}

/// Parses every record text, skipping the ones that fail: the
/// publications of the parsing texts in input order, and each failing
/// text's position and error so the caller can warn.
pub fn parse_batch(texts: &Vec<String>, d: &Delimiters) -> (r: (
    Vec<Publication>,
    Vec<(usize, ParseError)>,
))
    ensures
        r.0@.map_values(|p: Publication| p@)
            == spec_collect_parsed(texts@.map_values(|t: String| t@), d@),
        r.1@.map_values(|pr: (usize, ParseError)| (pr.0 as int, pr.1))
            == spec_collect_errors(texts@.map_values(|t: String| t@), d@, 0),
{
    let ghost text_views = texts@.map_values(|t: String| t@);
    let mut pubs: Vec<Publication> = Vec::new();
    let mut errors: Vec<(usize, ParseError)> = Vec::new();
    let mut i: usize = 0;
    proof {
        assert(text_views.take(0) =~= Seq::<Seq<char>>::empty());
        assert(pubs@.map_values(|p: Publication| p@)
            =~= spec_collect_parsed(text_views.take(0), d@));
        assert(errors@.map_values(|pr: (usize, ParseError)| (pr.0 as int, pr.1))
            =~= spec_collect_errors(text_views.take(0), d@, 0));
    }
    while i < texts.len()
        invariant
            i <= texts.len(),
            text_views == texts@.map_values(|t: String| t@),
            pubs@.map_values(|p: Publication| p@)
                == spec_collect_parsed(text_views.take(i as int), d@),
            errors@.map_values(|pr: (usize, ParseError)| (pr.0 as int, pr.1))
                == spec_collect_errors(text_views.take(i as int), d@, 0),
        decreases texts.len() - i,
    {
        let ghost prefix = text_views.take(i as int);
        proof {
            assert(text_views.take(i + 1) =~= prefix.push(text_views[i as int]));
            lemma_collect_parsed_snoc(prefix, d@, text_views[i as int]);
            lemma_collect_errors_snoc(prefix, d@, text_views[i as int], 0);
        }
        match parse_gobbet(texts[i].as_str(), d) {
            Ok(p) => {
                let ghost old_pubs = pubs@;
                pubs.push(p);
                proof {
                    assert(pubs@.map_values(|q: Publication| q@)
                        =~= old_pubs.map_values(|q: Publication| q@).push(p@));
                }
            },
            Err(e) => {
                let ghost old_errors = errors@;
                errors.push((i, e));
                proof {
                    assert(errors@.map_values(|pr: (usize, ParseError)| (pr.0 as int, pr.1))
                        =~= old_errors.map_values(|pr: (usize, ParseError)| (
                            pr.0 as int,
                            pr.1,
                        )).push((i as int, e)));
                }
            },
        }
        i = i + 1;
    }
    proof {
        assert(text_views.take(texts@.len() as int) =~= text_views);
    }
    (pubs, errors)
}

/// Most recent first: every earlier entry's date is no earlier than
/// every later entry's.
pub open spec fn sorted_by_date_desc(s: Seq<PublicationView>) -> bool {
    forall|i: int, j: int| 0 <= i <= j < s.len() ==> spec_date_le(s[j].date, s[i].date)
}

/// The publications of a sequence as mathematical values.
pub open spec fn views_of(s: Seq<Publication>) -> Seq<PublicationView> {
    s.map_values(|p: Publication| p@)
}

/// Whether an entry bears one particular date.
pub open spec fn date_pred(dd: Date) -> spec_fn(PublicationView) -> bool {
    |p: PublicationView| p.date == dd
}

/// The entries bearing one particular date, in order.
pub open spec fn with_date(s: Seq<PublicationView>, dd: Date) -> Seq<PublicationView> {
    s.filter(date_pred(dd))
}

/// Filtering keeps nothing when nothing satisfies the predicate.
proof fn lemma_filter_none<A>(s: Seq<A>, pred: spec_fn(A) -> bool)
    requires
        forall|i: int| 0 <= i < s.len() ==> !pred(#[trigger] s[i]),
    ensures
        s.filter(pred) == Seq::<A>::empty(),
    decreases s.len(),
{
    reveal(Seq::filter);
    if s.len() > 0 {
        assert forall|i: int| 0 <= i < s.drop_last().len() implies
            !pred(#[trigger] s.drop_last()[i]) by {
            assert(s.drop_last()[i] == s[i]);
        }
        lemma_filter_none(s.drop_last(), pred);
        assert(!pred(s.last()));
    }
}

/// Inserting an element into a sequence inserts it into the sequence's
/// multiset.
proof fn lemma_to_multiset_insert<A>(s: Seq<A>, j: int, x: A)
    requires
        0 <= j <= s.len(),
    ensures
        s.insert(j, x).to_multiset() == s.to_multiset().insert(x),
{
    broadcast use vstd::seq_lib::group_to_multiset_ensures;
    broadcast use vstd::multiset::group_multiset_axioms;

    let t = s.insert(j, x);
    s.insert_ensures(j, x);
    assert(t.remove(j) =~= s);
    assert(t[j] == x);
    assert(t.contains(x));
    assert(t.to_multiset().count(x) > 0);
    assert(s.to_multiset() == t.to_multiset().remove(x));
    assert(t.to_multiset() =~= s.to_multiset().insert(x));
}

/// Sorts publications by date, most recent first, by insertion: the
/// result is ordered, holds exactly the same publications, and is
/// stable — the entries of any one date keep their input order.
pub fn sort_by_date_desc(v: &mut Vec<Publication>)
    ensures
        sorted_by_date_desc(views_of(final(v)@)),
        views_of(final(v)@).to_multiset() == views_of(old(v)@).to_multiset(),
        forall|dd: Date| #[trigger] with_date(views_of(final(v)@), dd)
            == with_date(views_of(old(v)@), dd),
{
    let ghost orig = views_of(v@);
    let n = v.len();
    if n <= 1 {
        return ;
    }
    let mut i: usize = 1;
    while i < n
        invariant
            1 <= i <= n,
            v@.len() == n,
            views_of(v@).to_multiset() == orig.to_multiset(),
            sorted_by_date_desc(views_of(v@).take(i as int)),
            forall|dd: Date| #[trigger] with_date(views_of(v@), dd) == with_date(orig, dd),
        decreases n - i,
    {
        let ghost w = views_of(v@);
        let xd: Date = v[i].date;
        let mut j: usize = 0;
        while j < i && date_le(&xd, &v[j].date)
            invariant
                j <= i < n,
                v@.len() == n,
                w == views_of(v@),
                xd == w[i as int].date,
                forall|k: int| 0 <= k < j ==> spec_date_le(xd, #[trigger] w[k].date),
            decreases i - j,
        {
            j = j + 1;
        }
        let x = v.remove(i);
        v.insert(j, x);
        proof {
            let u = w.remove(i as int);
            let nw = u.insert(j as int, w[i as int]);
            assert(views_of(v@) =~= nw);
            w.remove_ensures(i as int);
            u.insert_ensures(j as int, w[i as int]);
            // The multiset is unchanged: remove then insert of the same value.
            broadcast use vstd::seq_lib::group_to_multiset_ensures;
            broadcast use vstd::multiset::group_multiset_axioms;

            lemma_to_multiset_insert(u, j as int, w[i as int]);
            assert(w.contains(w[i as int]));
            assert(nw.to_multiset() =~= w.to_multiset());
            // The prefix one longer is ordered: entries before the
            // insertion point are no earlier than the inserted date, and
            // entries after it are no later.
            assert forall|a: int, b: int| 0 <= a <= b < i + 1 implies
                spec_date_le(nw[b].date, nw[a].date) by {
                assert(forall|k: int| 0 <= k < i ==> u[k] == w[k]);
                if j < i {
                    assert(!spec_date_le(xd, w[j as int].date) || j == i);
                }
                let av = if a < j { u[a] } else if a == j { w[i as int] } else { u[a - 1] };
                assert(nw[a] == av);
                let bv = if b < j { u[b] } else if b == j { w[i as int] } else { u[b - 1] };
                assert(nw[b] == bv);
                if a < j && b == j {
                    assert(spec_date_le(xd, w[a].date));
                } else if a == j && b > j {
                    assert(spec_date_le(w[b - 1].date, w[j as int].date));
                    assert(spec_date_le(w[j as int].date, xd));
                } else if a < j && b > j {
                    assert(spec_date_le(w[b - 1].date, w[a].date));
                }
            }
            assert(sorted_by_date_desc(views_of(v@).take(i + 1)));
            // Stability: the moved entry jumps only over strictly
            // earlier dates, so the entries of each date keep their
            // relative order.
            let x = w[i as int];
            let front = w.take(j as int);
            let jumped = w.subrange(j as int, i as int);
            let tail = w.skip(i + 1);
            assert(w =~= ((front + jumped) + seq![x]) + tail);
            assert(nw =~= ((front + seq![x]) + jumped) + tail);
            assert forall|k: int| 0 <= k < jumped.len() implies
                !spec_date_le(xd, (#[trigger] jumped[k]).date) by {
                assert(jumped[k] == w[j + k]);
                assert(!spec_date_le(xd, w[j as int].date));
                if k > 0 {
                    assert(spec_date_le(w.take(i as int)[j + k].date,
                        w.take(i as int)[j as int].date));
                }
            }
            assert forall|dd: Date| #[trigger] with_date(nw, dd) == with_date(w, dd) by {
                let pred = date_pred(dd);
                Seq::<PublicationView>::filter_distributes_over_add(front, jumped, pred);
                Seq::<PublicationView>::filter_distributes_over_add(front + jumped, seq![x], pred);
                Seq::<PublicationView>::filter_distributes_over_add(
                    (front + jumped) + seq![x],
                    tail,
                    pred,
                );
                Seq::<PublicationView>::filter_distributes_over_add(front, seq![x], pred);
                Seq::<PublicationView>::filter_distributes_over_add(front + seq![x], jumped, pred);
                Seq::<PublicationView>::filter_distributes_over_add(
                    (front + seq![x]) + jumped,
                    tail,
                    pred,
                );
                if dd == x.date {
                    assert forall|k: int| 0 <= k < jumped.len() implies
                        !pred(#[trigger] jumped[k]) by {
                        if jumped[k].date == dd {
                            assert(spec_date_le(xd, jumped[k].date));
                        }
                    }
                    lemma_filter_none(jumped, pred);
                } else {
                    assert forall|k: int| 0 <= k < seq![x].len() implies
                        !pred(#[trigger] seq![x][k]) by {
                        assert(seq![x][k] == x);
                    }
                    lemma_filter_none(seq![x], pred);
                }
                assert(((front.filter(pred) + jumped.filter(pred)) + seq![x].filter(pred))
                        + tail.filter(pred)
                    =~= ((front.filter(pred) + seq![x].filter(pred)) + jumped.filter(pred))
                        + tail.filter(pred));
            }
            assert forall|dd: Date| #[trigger] with_date(views_of(v@), dd)
                == with_date(orig, dd) by {
                assert(views_of(v@) == nw);
                assert(with_date(nw, dd) == with_date(w, dd));
                assert(with_date(w, dd) == with_date(orig, dd));
            }
        }
        i = i + 1;
    }
    proof {
        let fin = views_of(v@);
        assert(fin.take(n as int) =~= fin);
    }
}

/// Parse failure locality: a record text that fails to parse contributes
/// nothing and changes nothing — the batch of publications is exactly the
/// batch with that text left out.
pub proof fn lemma_parse_failure_locality(texts: Seq<Seq<char>>, d: DelimitersView, k: int)
    requires
        0 <= k < texts.len(),
        spec_parse_gobbet(texts[k], d) is Err,
    ensures
        spec_collect_parsed(texts, d) == spec_collect_parsed(texts.remove(k), d),
    decreases texts.len(),
{
    if k == 0 {
        assert(texts.remove(0) =~= texts.skip(1));
    } else {
        assert(texts.remove(k)[0] == texts[0]);
        assert(texts.remove(k).skip(1) =~= texts.skip(1).remove(k - 1));
        assert(texts.skip(1)[k - 1] == texts[k]);
        lemma_parse_failure_locality(texts.skip(1), d, k - 1);
        assert(texts.remove(k).len() >= 1);
    }
}

} // verus!
