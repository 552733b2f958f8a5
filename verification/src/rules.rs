//! The tag rule engine: a page carries a conjunction of include/exclude
//! rules over exact tag text, and a publication appears on the page
//! exactly when every rule passes. A page with no rules accepts every
//! publication. Accepted publications are appended in call order; any
//! sorting is the caller's own, separate step.

use vstd::prelude::*;
use vstd::string::*;

use crate::publication::{Publication, PublicationView};
use crate::text::str_eq;

verus! {

/// Whether a rule demands its tag's presence or its absence.
#[derive(Clone, Copy, PartialEq, Eq, Structural, Debug)]
pub enum RuleMode {
    Include,
    Exclude,
}

/// One tag predicate: the tag text, matched by exact equality, and
/// whether it must be present or absent.
pub struct Rule {
    pub mode: RuleMode,
    pub tag: String,
}

/// A rule as mathematical values.
pub struct RuleView {
    pub mode: RuleMode,
    pub tag: Seq<char>,
}

impl View for Rule {
    type V = RuleView;

    open spec fn view(&self) -> RuleView {
        RuleView { mode: self.mode, tag: self.tag@ }
    }
}

/// Whether one rule passes against a tag list: an include rule passes
/// exactly when its tag is present, an exclude rule exactly when its tag
/// is absent.
pub open spec fn rule_sat(r: RuleView, tags: Seq<Seq<char>>) -> bool {
    match r.mode {
        RuleMode::Include => tags.contains(r.tag),
        RuleMode::Exclude => !tags.contains(r.tag),
    }
}

/// Whether every rule passes: the conjunction over the whole rule list,
/// vacuously true when there are no rules.
pub open spec fn page_accepts(rules: Seq<RuleView>, tags: Seq<Seq<char>>) -> bool {
    forall|i: int| 0 <= i < rules.len() ==> #[trigger] rule_sat(rules[i], tags)
}

/// Rule conjunction, stated in full: the rules accept a tag list exactly
/// when every include rule's tag is in the list and every exclude rule's
/// tag is not; an empty rule list accepts everything.
pub proof fn lemma_rule_conjunction(rules: Seq<RuleView>, tags: Seq<Seq<char>>)
    ensures
        page_accepts(rules, tags) <==> (forall|i: int|
            0 <= i < rules.len() ==> match #[trigger] rules[i].mode {
                RuleMode::Include => tags.contains(rules[i].tag),
                RuleMode::Exclude => !tags.contains(rules[i].tag),
            }),
        rules.len() == 0 ==> page_accepts(rules, tags),
{
    assert forall|i: int| 0 <= i < rules.len() implies
        (rule_sat(rules[i], tags) <==> match rules[i].mode {
            RuleMode::Include => tags.contains(rules[i].tag),
            RuleMode::Exclude => !tags.contains(rules[i].tag),
        }) by {}
}

/// Whether the tag list holds exactly this tag text.
pub fn tags_contain(tags: &Vec<String>, tag: &str) -> (r: bool)
    ensures
        r == tags@.map_values(|t: String| t@).contains(tag@),
{
    let ghost views = tags@.map_values(|t: String| t@);
    let mut i: usize = 0;
    while i < tags.len()
        invariant
            i <= tags.len(),
            views == tags@.map_values(|t: String| t@),
            forall|j: int| 0 <= j < i ==> views[j] != tag@,
        decreases tags.len() - i,
    {
        if str_eq(tags[i].as_str(), tag) {
            assert(views[i as int] == tag@);
            return true;
        }
        i = i + 1;
    }
    proof {
        if views.contains(tag@) {
            let j = choose|j: int| 0 <= j < views.len() && views[j] == tag@;
            assert(views[j] != tag@);
        }
    }
    false
}

/// Whether one rule passes against a publication's tags.
pub fn rule_applies(r: &Rule, p: &Publication) -> (b: bool)
    ensures
        b == rule_sat(r@, p@.tags),
{
    let present = tags_contain(&p.tags, r.tag.as_str());
    match r.mode {
        RuleMode::Include => present,
        RuleMode::Exclude => !present,
    }
}

/// A named output page: its title, its rule conjunction, and the
/// publications selected onto it so far, in acceptance order.
pub struct Page {
    pub title: String,
    pub rules: Vec<Rule>,
    pub selected: Vec<Publication>,
}

/// A page as mathematical values.
pub struct PageView {
    pub title: Seq<char>,
    pub rules: Seq<RuleView>,
    pub selected: Seq<PublicationView>,
}

impl View for Page {
    type V = PageView;

    open spec fn view(&self) -> PageView {
        PageView {
            title: self.title@,
            rules: self.rules@.map_values(|r: Rule| r@),
            selected: self.selected@.map_values(|p: Publication| p@),
        }
    }
}

impl Page {
    /// A fresh page with a title and its rules, and nothing selected.
    pub fn new(title: String, rules: Vec<Rule>) -> (r: Page)
        ensures
            r@.title == title@,
            r@.rules == rules@.map_values(|x: Rule| x@),
            r@.selected == Seq::<PublicationView>::empty(),
    {
        let p = Page { title, rules, selected: Vec::new() };
        proof {
            assert(p@.selected =~= Seq::<PublicationView>::empty());
        }
        p
    }
}

/// Whether a publication belongs on a page: every rule passes. May stop
/// at the first failing rule; the result is the full conjunction either
/// way.
pub fn publication_matches(page: &Page, p: &Publication) -> (b: bool)
    ensures
        b == page_accepts(page@.rules, p@.tags),
{
    let ghost rule_views = page.rules@.map_values(|r: Rule| r@);
    let mut i: usize = 0;
    while i < page.rules.len()
        invariant
            i <= page.rules.len(),
            rule_views == page.rules@.map_values(|r: Rule| r@),
            forall|j: int| 0 <= j < i ==> #[trigger] rule_sat(rule_views[j], p@.tags),
        decreases page.rules.len() - i,
    {
        if !rule_applies(&page.rules[i], p) {
            assert(!rule_sat(rule_views[i as int], p@.tags));
            return false;
        }
        i = i + 1;
    }
    true
}

/// Offers a publication to a page: appends it to the selection exactly
/// when every rule passes, and says whether it did. The page's title and
/// rules never change.
pub fn add_publication(page: &mut Page, p: Publication) -> (accepted: bool)
    ensures
        accepted == page_accepts(old(page)@.rules, p@.tags),
        final(page)@.title == old(page)@.title,
        final(page)@.rules == old(page)@.rules,
        final(page)@.selected == if accepted {
            old(page)@.selected.push(p@)
        } else {
            old(page)@.selected
        },
{
    let accepted = publication_matches(page, &p);
    if accepted {
        let ghost before = page@.selected;
        let ghost pv = p@;
        page.selected.push(p);
        proof {
            assert(page@.selected =~= before.push(pv));
        }
    }
    accepted
}

/// The publications a rule conjunction accepts, in input order.
pub open spec fn accepted_by(rules: Seq<RuleView>, pubs: Seq<PublicationView>) -> Seq<
    PublicationView,
> {
    pubs.filter(|p: PublicationView| page_accepts(rules, p.tags))
}

/// Offers every publication to a page in turn: the selection grows by
/// exactly the accepted ones, in input order.
pub fn add_publications(page: &mut Page, pubs: Vec<Publication>)
    ensures
        final(page)@.title == old(page)@.title,
        final(page)@.rules == old(page)@.rules,
        final(page)@.selected == old(page)@.selected + accepted_by(
            old(page)@.rules,
            pubs@.map_values(|p: Publication| p@),
        ),
{
    let ghost all = pubs@.map_values(|p: Publication| p@);
    let ghost rules = page@.rules;
    let ghost base = page@.selected;
    let ghost pred = |p: PublicationView| page_accepts(rules, p.tags);
    let mut rest = pubs;
    let n = rest.len();
    let mut i: usize = 0;
    proof {
        reveal(Seq::filter);
        assert(all.take(0) =~= Seq::<PublicationView>::empty());
        assert(base + all.take(0).filter(pred) =~= base);
        assert(rest@.map_values(|p: Publication| p@) =~= all.skip(0));
    }
    while rest.len() > 0
        invariant
            i <= n,
            n == all.len(),
            rules == page@.rules,
            page@.title == old(page)@.title,
            rest@.map_values(|p: Publication| p@) == all.skip(i as int),
            rest@.len() == all.len() - i,
            pred == (|p: PublicationView| page_accepts(rules, p.tags)),
            page@.selected == base + all.take(i as int).filter(pred),
        decreases rest@.len(),
    {
        let ghost rest_seq = rest@;
        let ghost rest_views = rest_seq.map_values(|p: Publication| p@);
        let p = rest.remove(0);
        proof {
            assert(rest_views[0] == all[i as int]);
            assert(p@ == rest_views[0]);
            assert forall|k: int| 0 <= k < rest@.len() implies
                #[trigger] rest@[k]@ == all.skip(i + 1)[k] by {
                assert(rest@[k] == rest_seq[k + 1]);
                assert(rest_views[k + 1] == all.skip(i as int)[k + 1]);
            }
            assert(rest@.map_values(|q: Publication| q@) =~= all.skip(i + 1));
        }
        let ghost sel_before = page@.selected;
        let accepted = add_publication(page, p);
        proof {
            reveal(Seq::filter);
            let taken = all.take(i + 1);
            assert(taken.drop_last() =~= all.take(i as int));
            assert(taken.last() == all[i as int]);
            if accepted {
                assert(page@.selected
                    =~= base + all.take(i as int).filter(pred) + seq![all[i as int]]);
                assert(taken.filter(pred)
                    == all.take(i as int).filter(pred).push(all[i as int]));
                assert(base + all.take(i as int).filter(pred) + seq![all[i as int]]
                    =~= base + (all.take(i as int).filter(pred).push(all[i as int])));
            } else {
                assert(taken.filter(pred) == all.take(i as int).filter(pred));
            }
        }
        i = i + 1;
    }
    proof {
        assert(all.take(all.len() as int) =~= all);
    }
}

} // verus!
