//! HTTP `Link` header parsing.
//!
//! A `Link` header value is a comma-separated list of items; each item is a
//! semicolon-separated list whose first part carries an angle-bracket-delimited
//! URL and whose remaining parts are attributes, one of which must be a `rel`
//! attribute with an optionally quoted value. A header is parsed in full or
//! rejected with the error of its first unparseable item.

use vstd::prelude::*;
use vstd::string::*;

use crate::errors::ParseError;
use crate::scan::{first_at, last_at, lemma_first_at, lemma_last_at, find_first, find_last};

verus! {

/// One entry of a parsed `Link` header: a target URL and its relation label.
#[derive(Debug)]
pub struct LinkItem {
    pub url: String,
    pub rel: String,
}

impl View for LinkItem {
    type V = (Seq<char>, Seq<char>);

    open spec fn view(&self) -> (Seq<char>, Seq<char>) {
        (self.url@, self.rel@)
    }
}

/// A fully parsed `Link` header: its items, in header order.
#[derive(Debug)]
pub struct LinkHeader {
    pub items: Vec<LinkItem>,
}

impl View for LinkHeader {
    type V = Seq<(Seq<char>, Seq<char>)>;

    open spec fn view(&self) -> Seq<(Seq<char>, Seq<char>)> {
        self.items@.map_values(|it: LinkItem| it@)
    }
}

/// The pieces of `s` between occurrences of `sep`, in order. Splitting
/// always yields at least one piece; empty pieces are kept.
pub open spec fn split_at_char(s: Seq<char>, sep: char) -> Seq<Seq<char>>
    decreases s.len(),
{
    match first_at(s, sep) {
        None => seq![s],
        // first_at never leaves bounds (lemma_first_at); the range test is
        // only there so the recursion visibly shrinks.
        Some(i) => if 0 <= i < s.len() {
            seq![s.subrange(0, i)] + split_at_char(s.subrange(i + 1, s.len() as int), sep)
        } else {
            seq![s]
        },
    }
}

/// Splitting yields at least one piece.
pub proof fn lemma_split_nonempty(s: Seq<char>, sep: char)
    ensures
        split_at_char(s, sep).len() >= 1,
{
}

/// Splits `s` on `sep`, keeping empty pieces, as `split_at_char` describes.
pub fn split_char(s: &str, sep: char) -> (r: Vec<String>)
    ensures
        r@.map_values(|p: String| p@) == split_at_char(s@, sep),
{
    let mut parts: Vec<String> = Vec::new();
    let mut rest: &str = s;
    loop
        invariant
            split_at_char(s@, sep) == parts@.map_values(|p: String| p@) + split_at_char(
                rest@,
                sep,
            ),
        decreases rest@.len(),
    {
        let n = rest.unicode_len();
        match find_first(rest, sep) {
            Some(i) => {
                proof {
                    lemma_first_at(rest@, sep);
                }
                let piece = rest.substring_char(0, i).to_owned();
                let ghost old_parts = parts@;
                parts.push(piece);
                let next = rest.substring_char(i + 1, n);
                proof {
                    assert(parts@.map_values(|p: String| p@) =~= old_parts.map_values(
                        |p: String| p@,
                    ) + seq![rest@.subrange(0, i as int)]);
                    assert(split_at_char(s@, sep) =~= parts@.map_values(|p: String| p@)
                        + split_at_char(next@, sep));
                }
                rest = next;
            },
            None => {
                let ghost old_parts = parts@;
                parts.push(rest.to_owned());
                proof {
                    assert(parts@.map_values(|p: String| p@) =~= old_parts.map_values(
                        |p: String| p@,
                    ) + seq![rest@]);
                    assert(split_at_char(s@, sep) =~= parts@.map_values(|p: String| p@));
                }
                return parts;
            },
        }
    }
}

/// The URL of an item's first part: the text between the first `<` and the
/// last `>`, provided at least one character stands between them — the
/// leftmost, greedy reading of an angle-bracket-delimited URL.
pub open spec fn url_capture(s: Seq<char>) -> Option<Seq<char>> {
    match (first_at(s, '<'), last_at(s, '>')) {
        (Some(i), Some(j)) => if i + 2 <= j {
            Some(s.subrange(i + 1, j))
        } else {
            None
        },
        _ => None,
    }
}

/// Extracts the angle-bracket-delimited URL from one item part.
pub fn capture_url(s: &str) -> (r: Option<String>)
    ensures
        match r {
            Some(u) => url_capture(s@) == Some(u@),
            None => url_capture(s@) is None,
        },
{
    let open_pos = find_first(s, '<');
    let close_pos = find_last(s, '>');
    match (open_pos, close_pos) {
        (Some(i), Some(j)) => {
            proof {
                lemma_first_at(s@, '<');
                lemma_last_at(s@, '>');
            }
            if j >= 2 && i <= j - 2 {
                Some(s.substring_char(i + 1, j).to_owned())
            } else {
                None
            }
        },
        _ => None,
    }
}

/// The value matched after an occurrence of `rel=` starting at `q`: an
/// optional opening quote, then the maximal nonempty run of non-quote
/// characters. `None` when that run would be empty.
pub open spec fn rel_value_at(s: Seq<char>, q: int) -> Option<Seq<char>> {
    let b = if q < s.len() && s[q] == '"' {
        q + 1
    } else {
        q
    };
    let e = match first_at(s.subrange(b, s.len() as int), '"') {
        Some(k) => b + k,
        None => s.len() as int,
    };
    if b < e {
        Some(s.subrange(b, e))
    } else {
        None
    }
}

/// Whether the four characters `rel=` stand at position `p` of `s`.
pub open spec fn rel_key_at(s: Seq<char>, p: int) -> bool {
    &&& 0 <= p
    &&& p + 4 <= s.len()
    &&& s[p] == 'r'
    &&& s[p + 1] == 'e'
    &&& s[p + 2] == 'l'
    &&& s[p + 3] == '='
}

/// The relation captured from `s` at or after position `p`: the value of
/// the leftmost `rel=` occurrence that is followed by a capturable value.
pub open spec fn rel_capture_from(s: Seq<char>, p: int) -> Option<Seq<char>>
    decreases s.len() - p,
{
    if p < 0 || p + 4 > s.len() {
        None
    } else if rel_key_at(s, p) && rel_value_at(s, p + 4) is Some {
        rel_value_at(s, p + 4)
    } else {
        rel_capture_from(s, p + 1)
    }
}

/// The relation captured from one attribute part, scanning from its start.
pub open spec fn rel_capture(s: Seq<char>) -> Option<Seq<char>> {
    rel_capture_from(s, 0)
}

/// Extracts the value standing after `rel=` at position `q` of `s`.
fn capture_rel_value_at(s: &str, q: usize) -> (r: Option<String>)
    requires
        q <= s@.len(),
    ensures
        match r {
            Some(v) => rel_value_at(s@, q as int) == Some(v@),
            None => rel_value_at(s@, q as int) is None,
        },
{
    let n = s.unicode_len();
    let b = if q < n && s.get_char(q) == '"' {
        q + 1
    } else {
        q
    };
    let tail = s.substring_char(b, n);
    let e = match find_first(tail, '"') {
        Some(k) => {
            proof {
                lemma_first_at(tail@, '"');
            }
            b + k
        },
        None => n,
    };
    if b < e {
        Some(s.substring_char(b, e).to_owned())
    } else {
        None
    }
}

/// Extracts the relation from one attribute part: the optionally quoted
/// value of its leftmost capturable `rel=` occurrence.
pub fn capture_rel(s: &str) -> (r: Option<String>)
    ensures
        match r {
            Some(v) => rel_capture(s@) == Some(v@),
            None => rel_capture(s@) is None,
        },
{
    let n = s.unicode_len();
    if n < 4 {
        return None;
    }
    let last = n - 4;
    for p in 0..last + 1
        invariant
            n == s@.len(),
            4 <= n,
            last == n - 4,
            rel_capture(s@) == rel_capture_from(s@, p as int),
    {
        let key_here = s.get_char(p) == 'r' && s.get_char(p + 1) == 'e' && s.get_char(p + 2)
            == 'l' && s.get_char(p + 3) == '=';
        if key_here {
            match capture_rel_value_at(s, p + 4) {
                Some(v) => {
                    return Some(v);
                },
                None => {},
            }
        }
    }
    None
}

/// The relation of the first part at or after index `k` that yields one.
pub open spec fn first_rel_from(parts: Seq<Seq<char>>, k: int) -> Option<Seq<char>>
    decreases parts.len() - k,
{
    if k < 0 || k >= parts.len() {
        None
    } else {
        match rel_capture(parts[k]) {
            Some(r) => Some(r),
            None => first_rel_from(parts, k + 1),
        }
    }
}

/// One comma-separated item, parsed: its parts are split on `;`, the first
/// part must yield a URL, and the first later part yielding a relation
/// determines the relation.
pub open spec fn spec_parse_item(s: Seq<char>) -> Result<(Seq<char>, Seq<char>), ParseError> {
    let parts = split_at_char(s, ';');
    match url_capture(parts[0]) {
        None => Err(ParseError::MalformedLink),
        Some(url) => match first_rel_from(parts, 1) {
            Some(rel) => Ok((url, rel)),
            None => Err(ParseError::MissingRelation),
        },
    }
}

/// The items at or after index `k`, each parsed; the first failure aborts
/// the whole parse with its error.
pub open spec fn parse_items_from(items: Seq<Seq<char>>, k: int) -> Result<
    Seq<(Seq<char>, Seq<char>)>,
    ParseError,
>
    decreases items.len() - k,
{
    if k < 0 || k >= items.len() {
        Ok(seq![])
    } else {
        match spec_parse_item(items[k]) {
            Err(e) => Err(e),
            Ok(it) => match parse_items_from(items, k + 1) {
                Err(e) => Err(e),
                Ok(rest) => Ok(seq![it] + rest),
            },
        }
    }
}

/// A whole header value, parsed: split on `,`, every item parsed, the first
/// failure aborting the parse.
pub open spec fn spec_parse_header(s: Seq<char>) -> Result<
    Seq<(Seq<char>, Seq<char>)>,
    ParseError,
> {
    parse_items_from(split_at_char(s, ','), 0)
}

/// The relation value of the first attribute part (index 1 on) that has one.
fn find_first_rel(parts: &Vec<String>) -> (r: Option<String>)
    requires
        parts@.len() >= 1,
    ensures
        match r {
            Some(v) => first_rel_from(parts@.map_values(|p: String| p@), 1) == Some(v@),
            None => first_rel_from(parts@.map_values(|p: String| p@), 1) is None,
        },
{
    let ghost sp = parts@.map_values(|p: String| p@);
    let n = parts.len();
    for k in 1..n
        invariant
            n == parts@.len(),
            sp == parts@.map_values(|p: String| p@),
            first_rel_from(sp, 1) == first_rel_from(sp, k as int),
    {
        if let Some(v) = capture_rel(parts[k].as_str()) {
            return Some(v);
        }
    }
    None
}

impl LinkItem {
    /// Parses one comma-separated item of a header value, as
    /// `spec_parse_item` describes.
    pub fn parse(item: &str) -> (r: Result<LinkItem, ParseError>)
        ensures
            match r {
                Ok(it) => spec_parse_item(item@) == Ok::<_, ParseError>(it@),
                Err(e) => spec_parse_item(item@) == Err::<(Seq<char>, Seq<char>), _>(e),
            },
    {
        let parts = split_char(item, ';');
        proof {
            lemma_split_nonempty(item@, ';');
        }
        match capture_url(parts[0].as_str()) {
            None => Err(ParseError::MalformedLink),
            Some(url) => match find_first_rel(&parts) {
                Some(rel) => Ok(LinkItem { url, rel }),
                None => Err(ParseError::MissingRelation),
            },
        }
    }
}

impl LinkHeader {
    /// Parses a whole header value, as `spec_parse_header` describes: all
    /// items parsed in order, or the error of the first unparseable item.
    pub fn create(header: &str) -> (r: Result<LinkHeader, ParseError>)
        ensures
            match r {
                Ok(h) => spec_parse_header(header@) == Ok::<_, ParseError>(h@),
                Err(e) => spec_parse_header(header@) == Err::<Seq<(Seq<char>, Seq<char>)>, _>(e),
            },
    {
        let parts = split_char(header, ',');
        let ghost sp = parts@.map_values(|p: String| p@);
        let mut items: Vec<LinkItem> = Vec::new();
        let n = parts.len();
        proof {
            if let Ok(rest) = parse_items_from(sp, 0) {
                assert(seq![] + rest =~= rest);
            }
        }
        for k in 0..n
            invariant
                n == parts@.len(),
                sp == parts@.map_values(|p: String| p@),
                sp == split_at_char(header@, ','),
                parse_items_from(sp, 0) == (match parse_items_from(sp, k as int) {
                    Err(e) => Err::<Seq<(Seq<char>, Seq<char>)>, ParseError>(e),
                    Ok(rest) => Ok(items@.map_values(|it: LinkItem| it@) + rest),
                }),
        {
            let ghost old_items = items@;
            match LinkItem::parse(parts[k].as_str()) {
                Err(e) => {
                    proof {
                        assert(parse_items_from(sp, k as int) == Err::<
                            Seq<(Seq<char>, Seq<char>)>,
                            ParseError,
                        >(e));
                    }
                    return Err(e);
                },
                Ok(it) => {
                    items.push(it);
                    proof {
                        assert(items@.map_values(|it: LinkItem| it@) =~= old_items.map_values(
                            |it: LinkItem| it@,
                        ).push(items@.last()@));
                        match parse_items_from(sp, k + 1) {
                            Err(e) => {},
                            Ok(rest) => {
                                assert(old_items.map_values(|it: LinkItem| it@) + (seq![
                                    items@.last()@,
                                ] + rest) =~= items@.map_values(|it: LinkItem| it@) + rest);
                            },
                        }
                    }
                },
            }
        }
        proof {
            assert(items@.map_values(|it: LinkItem| it@) + seq![] =~= items@.map_values(
                |it: LinkItem| it@,
            ));
        }
        Ok(LinkHeader { items })
    }
}

proof fn lemma_items_first_err(items: Seq<Seq<char>>, m: int, k: int, e: ParseError)
    requires
        0 <= m <= k < items.len(),
        forall|j: int| m <= j < k ==> spec_parse_item(items[j]) is Ok,
        spec_parse_item(items[k]) == Err::<(Seq<char>, Seq<char>), ParseError>(e),
    ensures
        parse_items_from(items, m) == Err::<Seq<(Seq<char>, Seq<char>)>, ParseError>(e),
    decreases k - m,
{
    if m < k {
        lemma_items_first_err(items, m + 1, k, e);
    }
}

proof fn lemma_items_any_err(items: Seq<Seq<char>>, m: int, k: int)
    requires
        0 <= m <= k < items.len(),
        spec_parse_item(items[k]) is Err,
    ensures
        parse_items_from(items, m) is Err,
    decreases k - m,
{
    if m < k {
        match spec_parse_item(items[m]) {
            Err(_) => {},
            Ok(_) => {
                lemma_items_any_err(items, m + 1, k);
            },
        }
    }
}

/// A header value with any unparseable item is rejected whole: no partial
/// header is ever produced.
pub proof fn lemma_no_partial_header(s: Seq<char>, k: int)
    requires
        0 <= k < split_at_char(s, ',').len(),
        spec_parse_item(split_at_char(s, ',')[k]) is Err,
    ensures
        spec_parse_header(s) is Err,
{
    lemma_items_any_err(split_at_char(s, ','), 0, k);
}

/// A header value whose first unparseable item carries no angle-bracketed
/// URL fails with `MalformedLink`. (When an even earlier item already fails,
/// that item's error wins instead.)
pub proof fn lemma_missing_url_rejected(s: Seq<char>, k: int)
    requires
        0 <= k < split_at_char(s, ',').len(),
        forall|j: int| 0 <= j < k ==> spec_parse_item(split_at_char(s, ',')[j]) is Ok,
        url_capture(split_at_char(split_at_char(s, ',')[k], ';')[0]) is None,
    ensures
        spec_parse_header(s) == Err::<Seq<(Seq<char>, Seq<char>)>, ParseError>(
            ParseError::MalformedLink,
        ),
{
    lemma_items_first_err(split_at_char(s, ','), 0, k, ParseError::MalformedLink);
}

/// A header value whose first unparseable item carries a URL but no `rel`
/// attribute fails with `MissingRelation`. (When an even earlier item
/// already fails, that item's error wins instead.)
pub proof fn lemma_missing_rel_rejected(s: Seq<char>, k: int)
    requires
        0 <= k < split_at_char(s, ',').len(),
        forall|j: int| 0 <= j < k ==> spec_parse_item(split_at_char(s, ',')[j]) is Ok,
        url_capture(split_at_char(split_at_char(s, ',')[k], ';')[0]) is Some,
        first_rel_from(split_at_char(split_at_char(s, ',')[k], ';'), 1) is None,
    ensures
        spec_parse_header(s) == Err::<Seq<(Seq<char>, Seq<char>)>, ParseError>(
            ParseError::MissingRelation,
        ),
{
    lemma_items_first_err(split_at_char(s, ','), 0, k, ParseError::MissingRelation);
}

/// The first item at or after index `k` whose relation is exactly `rel`.
pub open spec fn find_rel_from(
    items: Seq<(Seq<char>, Seq<char>)>,
    rel: Seq<char>,
    k: int,
) -> Option<(Seq<char>, Seq<char>)>
    decreases items.len() - k,
{
    if k < 0 || k >= items.len() {
        None
    } else if items[k].1 == rel {
        Some(items[k])
    } else {
        find_rel_from(items, rel, k + 1)
    }
}

/// The first item of the header whose relation is exactly `rel`.
pub open spec fn spec_find_rel(
    items: Seq<(Seq<char>, Seq<char>)>,
    rel: Seq<char>,
) -> Option<(Seq<char>, Seq<char>)> {
    find_rel_from(items, rel, 0)
}

/// Index `i` holds a match for `rel` and no earlier index does.
pub open spec fn is_first_match(
    items: Seq<(Seq<char>, Seq<char>)>,
    rel: Seq<char>,
    i: int,
) -> bool {
    &&& 0 <= i < items.len()
    &&& items[i].1 == rel
    &&& forall|k: int| 0 <= k < i ==> items[k].1 != rel
}

proof fn lemma_find_rel_from(items: Seq<(Seq<char>, Seq<char>)>, rel: Seq<char>, k: int)
    requires
        0 <= k,
        forall|j: int| 0 <= j < k ==> items[j].1 != rel,
    ensures
        match find_rel_from(items, rel, k) {
            Some(it) => exists|i: int| is_first_match(items, rel, i) && items[i] == it,
            None => forall|i: int| 0 <= i < items.len() ==> items[i].1 != rel,
        },
    decreases items.len() - k,
{
    if k >= items.len() {
    } else if items[k].1 == rel {
        assert(is_first_match(items, rel, k));
    } else {
        lemma_find_rel_from(items, rel, k + 1);
    }
}

/// Looking a relation up in a well-formed header returns its first item
/// carrying that relation — order-preserving, first match wins when the
/// relation occurs more than once — and nothing when no item carries it.
pub proof fn lemma_find_rel_first_match(items: Seq<(Seq<char>, Seq<char>)>, rel: Seq<char>)
    ensures
        match spec_find_rel(items, rel) {
            Some(it) => exists|i: int| is_first_match(items, rel, i) && items[i] == it,
            None => forall|i: int| 0 <= i < items.len() ==> items[i].1 != rel,
        },
{
    lemma_find_rel_from(items, rel, 0);
}

impl LinkHeader {
    /// The first item whose relation equals `rel` exactly; `None` when no
    /// item carries that relation (absence is not an error).
    pub fn find_rel(&self, rel: &str) -> (r: Option<&LinkItem>)
        ensures
            match r {
                Some(it) => spec_find_rel(self@, rel@) == Some(it@),
                None => spec_find_rel(self@, rel@) is None,
            },
    {
        let wanted: String = rel.to_owned();
        let n = self.items.len();
        for k in 0..n
            invariant
                n == self.items@.len(),
                wanted@ == rel@,
                spec_find_rel(self@, rel@) == find_rel_from(self@, rel@, k as int),
        {
            if self.items[k].rel.eq(&wanted) {
                return Some(&self.items[k]);
            }
        }
        None
    }
}

} // verus!
