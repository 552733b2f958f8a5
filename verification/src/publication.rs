//! Publication records and the delimiter-based record text format. A
//! record text carries four sections, in a mandatory fixed order: title,
//! date, markdown body and tag list, each introduced by a literal
//! delimiter token. The tokens are deployment configuration, not
//! constants of the format. Parsing splits the text at the first
//! occurrence of each successive token, so a section may freely contain
//! earlier sections' tokens, but not a later one's.

use vstd::prelude::*;
use vstd::string::*;

use crate::date::{
    check_date, date_valid, format_date, lemma_date_round_trip, parse_date, spec_format_date,
    spec_parse_date, Date,
};
use crate::text::{
    boundary_clean, contains_sub, has_sub, lemma_join_snoc, lemma_remove_all_absent,
    lemma_remove_all_prefix, lemma_split_join, lemma_split_once_concat, lemma_trim_identity,
    matches_at, occurs_at, push_char, remove_all, split_at_char, split_once_at, spec_join,
    spec_remove_all, spec_split_at_char, spec_split_once, spec_trim, trim,
};

verus! {

/// The four literal delimiter tokens of the record format, in the order
/// their sections appear: title, date, markdown, tags.
pub struct Delimiters {
    pub title: String,
    pub date: String,
    pub markdown: String,
    pub tags: String,
}

/// The delimiter tokens as character sequences.
pub struct DelimitersView {
    pub title: Seq<char>,
    pub date: Seq<char>,
    pub markdown: Seq<char>,
    pub tags: Seq<char>,
}

impl View for Delimiters {
    type V = DelimitersView;

    open spec fn view(&self) -> DelimitersView {
        DelimitersView {
            title: self.title@,
            date: self.date@,
            markdown: self.markdown@,
            tags: self.tags@,
        }
    }
}

impl Delimiters {
    /// The deployment's usual token set.
    pub fn standard() -> (r: Delimiters)
        ensures
            r@.title == "\u{1f356}TITLE\u{1f356}"@,
            r@.date == "\u{1f356}DATE\u{1f356}"@,
            r@.markdown == "\u{1f356}MARKDOWN\u{1f356}"@,
            r@.tags == "\u{1f356}TAGS\u{1f356}"@,
    {
        Delimiters {
            title: String::from_str("\u{1f356}TITLE\u{1f356}"),
            date: String::from_str("\u{1f356}DATE\u{1f356}"),
            markdown: String::from_str("\u{1f356}MARKDOWN\u{1f356}"),
            tags: String::from_str("\u{1f356}TAGS\u{1f356}"),
        }
    }
}

/// One publication: title, date, markdown body and tags. A value of this
/// type only ever comes out of a successful parse or an explicit
/// constructor; there are no partial records.
#[derive(Debug)]
pub struct Publication {
    pub title: String,
    pub date: Date,
    pub markdown: String,
    pub tags: Vec<String>,
}

/// A publication's fields as mathematical values.
pub struct PublicationView {
    pub title: Seq<char>,
    pub date: Date,
    pub markdown: Seq<char>,
    pub tags: Seq<Seq<char>>,
}

impl View for Publication {
    type V = PublicationView;

    open spec fn view(&self) -> PublicationView {
        PublicationView {
            title: self.title@,
            date: self.date,
            markdown: self.markdown@,
            tags: self.tags@.map_values(|t: String| t@),
        }
    }
}

impl Publication {
    /// A record built directly from its four fields.
    pub fn new(title: String, date: Date, markdown: String, tags: Vec<String>) -> (r:
        Publication)
        ensures
            r@.title == title@,
            r@.date == date,
            r@.markdown == markdown@,
            r@.tags == tags@.map_values(|t: String| t@),
    {
        Publication { title, date, markdown, tags }
    }
}

/// Why a record text failed to parse: a missing section token, or a date
/// section that does not hold the fixed date form.
#[derive(Clone, Copy, PartialEq, Eq, Structural, Debug)]
pub enum ParseError {
    MissingDateToken,
    MissingMarkdownToken,
    MissingTagsToken,
    BadDate,
}

/// What parsing a record text yields. The text splits at the first
/// occurrence of the date, markdown and tags tokens in turn; each of the
/// first three sections then drops every occurrence of its own token and
/// its surrounding whitespace; the tag section splits at commas, each tag
/// trimmed. A missing token or a malformed date section fails the whole
/// record: there are no partial results.
pub open spec fn spec_parse_gobbet(s: Seq<char>, d: DelimitersView) -> Result<
    PublicationView,
    ParseError,
> {
    match spec_split_once(s, d.date) {
        None => Err(ParseError::MissingDateToken),
        Some((title_seg, rest1)) => match spec_split_once(rest1, d.markdown) {
            None => Err(ParseError::MissingMarkdownToken),
            Some((date_seg, rest2)) => match spec_split_once(rest2, d.tags) {
                None => Err(ParseError::MissingTagsToken),
                Some((md_seg, tags_seg)) => {
                    let date_text = spec_trim(spec_remove_all(date_seg, d.date));
                    match spec_parse_date(date_text) {
                        None => Err(ParseError::BadDate),
                        Some(date) => Ok(
                            PublicationView {
                                title: spec_trim(spec_remove_all(title_seg, d.title)),
                                date,
                                markdown: spec_trim(spec_remove_all(md_seg, d.markdown)),
                                tags: spec_split_at_char(tags_seg, ',').map_values(
                                    |t: Seq<char>| spec_trim(t),
                                ),
                            },
                        ),
                    }
                },
            },
        },
    }
}

/// Parses one record text into a publication, or says which stage failed.
pub fn parse_gobbet(s: &str, d: &Delimiters) -> (r: Result<Publication, ParseError>)
    ensures
        match r {
            Ok(p) => spec_parse_gobbet(s@, d@) == Ok::<PublicationView, ParseError>(p@),
            Err(e) => spec_parse_gobbet(s@, d@) == Err::<PublicationView, ParseError>(e),
        },
{
    let (title_seg, rest1) = match split_once_at(s, d.date.as_str()) {
        Some(pair) => pair,
        None => {
            return Err(ParseError::MissingDateToken);
        },
    };
    let (date_seg, rest2) = match split_once_at(rest1, d.markdown.as_str()) {
        Some(pair) => pair,
        None => {
            return Err(ParseError::MissingMarkdownToken);
        },
    };
    let (md_seg, tags_seg) = match split_once_at(rest2, d.tags.as_str()) {
        Some(pair) => pair,
        None => {
            return Err(ParseError::MissingTagsToken);
        },
    };
    let date_cleaned = remove_all(date_seg, d.date.as_str());
    let date_text = trim(date_cleaned.as_str());
    let date = match parse_date(date_text) {
        Some(dt) => dt,
        None => {
            return Err(ParseError::BadDate);
        },
    };
    let title_cleaned = remove_all(title_seg, d.title.as_str());
    let title = String::from_str(trim(title_cleaned.as_str()));
    let md_cleaned = remove_all(md_seg, d.markdown.as_str());
    let markdown = String::from_str(trim(md_cleaned.as_str()));
    let pieces = split_at_char(tags_seg, ',');
    let mut tags: Vec<String> = Vec::new();
    let ghost piece_views = pieces@.map_values(|p: String| p@);
    let mut i: usize = 0;
    while i < pieces.len()
        invariant
            i <= pieces.len(),
            piece_views == pieces@.map_values(|p: String| p@),
            tags@.len() == i,
            forall|j: int| 0 <= j < i ==> #[trigger] tags@[j]@ == spec_trim(piece_views[j]),
        decreases pieces.len() - i,
    {
        let t = String::from_str(trim(pieces[i].as_str()));
        tags.push(t);
        i = i + 1;
    }
    let p = Publication { title, date, markdown, tags };
    proof {
        assert(tags@.map_values(|t: String| t@)
            =~= spec_split_at_char(tags_seg@, ',').map_values(|t: Seq<char>| spec_trim(t)));
    }
    Ok(p)
}

/// The record text for a publication: the four sections, each led by its
/// token, tags joined with commas.
pub open spec fn spec_format_gobbet(p: PublicationView, d: DelimitersView) -> Seq<char> {
    d.title + p.title + d.date + spec_format_date(p.date) + d.markdown + p.markdown + d.tags
        + spec_join(p.tags, ',')
}

/// A publication whose record text parses back to itself (after trim
/// normalization): the tokens are nonempty; no later section token occurs
/// in or straddles out of the text before its cut; no section holds its
/// own token; the tags are at least one and comma-free; the date is a
/// real day.
pub open spec fn round_trip_safe(p: PublicationView, d: DelimitersView) -> bool {
    &&& d.title.len() > 0
    &&& d.date.len() > 0
    &&& d.markdown.len() > 0
    &&& d.tags.len() > 0
    &&& boundary_clean(d.title + p.title, d.date)
    &&& !has_sub(p.title, d.title)
    &&& boundary_clean(spec_format_date(p.date), d.markdown)
    &&& !has_sub(spec_format_date(p.date), d.date)
    &&& boundary_clean(p.markdown, d.tags)
    &&& !has_sub(p.markdown, d.markdown)
    &&& p.tags.len() >= 1
    &&& (forall|i: int, j: int|
        0 <= i < p.tags.len() && 0 <= j < p.tags[i].len() ==> p.tags[i][j] != ',')
    &&& date_valid(p.date)
}

/// Writes the record text for a publication.
pub fn make_gobbet(p: &Publication, d: &Delimiters) -> (r: String)
    requires
        date_valid(p@.date),
    ensures
        r@ == spec_format_gobbet(p@, d@),
{
    let mut out = String::new();
    out.append(d.title.as_str());
    out.append(p.title.as_str());
    out.append(d.date.as_str());
    let date_text = format_date(&p.date);
    out.append(date_text.as_str());
    out.append(d.markdown.as_str());
    out.append(p.markdown.as_str());
    out.append(d.tags.as_str());
    let ghost base = out@;
    let ghost tag_views = p.tags@.map_values(|t: String| t@);
    let mut i: usize = 0;
    while i < p.tags.len()
        invariant
            i <= p.tags.len(),
            tag_views == p.tags@.map_values(|t: String| t@),
            out@ == base + spec_join(tag_views.take(i as int), ','),
        decreases p.tags.len() - i,
    {
        let ghost before = tag_views.take(i as int);
        if i > 0 {
            push_char(&mut out, ',');
        }
        out.append(p.tags[i].as_str());
        proof {
            assert(tag_views.take(i + 1) =~= before.push(tag_views[i as int]));
            if i > 0 {
                lemma_join_snoc(before, ',', tag_views[i as int]);
                assert(base + spec_join(before, ',') + seq![','] + tag_views[i as int]
                    =~= base + (spec_join(before, ',') + seq![','] + tag_views[i as int]));
            } else {
                assert(spec_join(before, ',') =~= Seq::<char>::empty());
                assert(base + spec_join(before, ',') =~= base);
                assert(spec_join(tag_views.take(1), ',') == tag_views[0]);
            }
        }
        i = i + 1;
    }
    proof {
        assert(tag_views.take(p.tags@.len() as int) =~= tag_views);
        assert(base + spec_join(tag_views, ',') =~= spec_format_gobbet(p@, d@));
    }
    out
}

/// Whether some position strictly inside `prefix` starts an occurrence
/// of `tok` in `prefix + tok`.
fn boundary_clean_check(prefix: &str, tok: &str) -> (r: bool)
    ensures
        r == boundary_clean(prefix@, tok@),
{
    let mut joined = String::new();
    joined.append(prefix);
    joined.append(tok);
    proof {
        assert(joined@ =~= prefix@ + tok@);
    }
    let n = prefix.unicode_len();
    let mut i: usize = 0;
    while i < n
        invariant
            n == prefix@.len(),
            i <= n,
            joined@ == prefix@ + tok@,
            forall|j: int| 0 <= j < i ==> !occurs_at(prefix@ + tok@, tok@, j),
        decreases n - i,
    {
        if matches_at(joined.as_str(), i, tok) {
            return false;
        }
        i = i + 1;
    }
    true
}

/// Whether the character `c` occurs in `s`.
fn contains_char(s: &str, c: char) -> (r: bool)
    ensures
        r == (exists|j: int| 0 <= j < s@.len() && s@[j] == c),
{
    let n = s.unicode_len();
    let mut i: usize = 0;
    while i < n
        invariant
            n == s@.len(),
            i <= n,
            forall|j: int| 0 <= j < i ==> s@[j] != c,
        decreases n - i,
    {
        if s.get_char(i) == c {
            return true;
        }
        i = i + 1;
    }
    false
}

/// Writes the record text for a publication only when parsing will
/// recover the record: the text comes back exactly when the publication
/// and tokens are `round_trip_safe`, and is then the text `make_gobbet`
/// writes.
pub fn make_gobbet_checked(p: &Publication, d: &Delimiters) -> (r: Option<String>)
    ensures
        match r {
            Some(s) => round_trip_safe(p@, d@) && s@ == spec_format_gobbet(p@, d@),
            None => !round_trip_safe(p@, d@),
        },
{
    if d.title.as_str().unicode_len() == 0 || d.date.as_str().unicode_len() == 0
        || d.markdown.as_str().unicode_len() == 0 || d.tags.as_str().unicode_len() == 0 {
        return None;
    }
    if !check_date(p.date) {
        return None;
    }
    let mut title_seg = String::new();
    title_seg.append(d.title.as_str());
    title_seg.append(p.title.as_str());
    proof {
        assert(title_seg@ =~= d@.title + p@.title);
    }
    if !boundary_clean_check(title_seg.as_str(), d.date.as_str()) {
        return None;
    }
    if contains_sub(p.title.as_str(), d.title.as_str()) {
        return None;
    }
    let date_text = format_date(&p.date);
    if !boundary_clean_check(date_text.as_str(), d.markdown.as_str()) {
        return None;
    }
    if contains_sub(date_text.as_str(), d.date.as_str()) {
        return None;
    }
    if !boundary_clean_check(p.markdown.as_str(), d.tags.as_str()) {
        return None;
    }
    if contains_sub(p.markdown.as_str(), d.markdown.as_str()) {
        return None;
    }
    if p.tags.len() == 0 {
        proof {
            assert(p@.tags.len() == 0);
        }
        return None;
    }
    let ghost tag_views = p.tags@.map_values(|t: String| t@);
    let mut i: usize = 0;
    while i < p.tags.len()
        invariant
            i <= p.tags.len(),
            tag_views == p.tags@.map_values(|t: String| t@),
            forall|a: int, b: int|
                0 <= a < i && 0 <= b < tag_views[a].len() ==> tag_views[a][b] != ',',
        decreases p.tags.len() - i,
    {
        if contains_char(p.tags[i].as_str(), ',') {
            proof {
                let b = choose|b: int| 0 <= b < tag_views[i as int].len()
                    && tag_views[i as int][b] == ',';
                assert(!round_trip_safe(p@, d@));
            }
            return None;
        }
        i = i + 1;
    }
    assert(round_trip_safe(p@, d@));
    Some(make_gobbet(p, d))
}

/// Round trip: the record text written for a publication parses back to
/// the same publication, each free-text field and tag normalized by
/// whitespace trimming, whenever the publication and tokens are
/// `round_trip_safe`.
pub proof fn lemma_gobbet_round_trip(p: PublicationView, d: DelimitersView)
    requires
        round_trip_safe(p, d),
    ensures
        spec_parse_gobbet(spec_format_gobbet(p, d), d) == Ok::<PublicationView, ParseError>(
            PublicationView {
                title: spec_trim(p.title),
                date: p.date,
                markdown: spec_trim(p.markdown),
                tags: p.tags.map_values(|t: Seq<char>| spec_trim(t)),
            },
        ),
{
    let s = spec_format_gobbet(p, d);
    let date_text = spec_format_date(p.date);
    let joined = spec_join(p.tags, ',');
    let seg1 = d.title + p.title;
    let rest1 = date_text + d.markdown + (p.markdown + d.tags + joined);

    assert(s =~= seg1 + d.date + rest1);
    lemma_split_once_concat(seg1, d.date, rest1);
    assert(spec_split_once(s, d.date) == Some((seg1, rest1)));

    let rest2 = p.markdown + d.tags + joined;
    assert(rest1 =~= date_text + d.markdown + rest2);
    lemma_split_once_concat(date_text, d.markdown, rest2);
    assert(spec_split_once(rest1, d.markdown) == Some((date_text, rest2)));

    assert(rest2 =~= p.markdown + d.tags + joined);
    lemma_split_once_concat(p.markdown, d.tags, joined);
    assert(spec_split_once(rest2, d.tags) == Some((p.markdown, joined)));

    // The date section is its own text: its token never occurs in it and
    // its ends are digits, not whitespace.
    lemma_remove_all_absent(date_text, d.date);
    assert(date_text.len() == 10);
    lemma_trim_identity(date_text);
    lemma_date_round_trip(p.date);
    assert(spec_parse_date(spec_trim(spec_remove_all(date_text, d.date))) == Some(p.date));

    // The title section drops its leading token and keeps the title.
    assert(spec_remove_all(seg1, d.title) == spec_remove_all(p.title, d.title)) by {
        assert(seg1 =~= d.title + p.title);
        lemma_remove_all_prefix(p.title, d.title);
    }
    lemma_remove_all_absent(p.title, d.title);

    // The markdown section holds no markdown token at all.
    lemma_remove_all_absent(p.markdown, d.markdown);

    // The comma-joined tags split back into the tags.
    lemma_split_join(p.tags, ',');
}

} // verus!
