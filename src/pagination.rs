//! Pagination metadata and the links that a paginated response carries.
use vstd::prelude::*;
use vstd::string::*;

use crate::text::{
    append_percent_encoded, decimal, digits_value, is_usize_text, parse_usize, percent_encoded, unsigned_digits,
    usize_to_decimal,
};
use crate::errors::ProxyError;

verus! {

/// The position of a response within the upstream's pages.
pub struct Meta {
    pub page: usize,
    pub total_pages: usize,
}

/// The absolute links of a paginated response.
pub struct Links {
    pub first: String,
    pub last: String,
    /// Present only where there is a later page.
    pub next: Option<String>,
    /// Present only where there is an earlier page.
    pub prev: Option<String>,
    /// The current page, listed as `self`.
    pub curr: String,
}

/// A query string as a sequence of key and value pairs.
pub open spec fn pairs_view(pairs: Seq<(String, String)>) -> Seq<(Seq<char>, Seq<char>)> {
    pairs.map_values(|p: (String, String)| (p.0@, p.1@))
}

/// `key=value&`, both percent-encoded, for every pair whose key is not
/// `page`, in order.
pub open spec fn kept_params(pairs: Seq<(Seq<char>, Seq<char>)>) -> Seq<char>
    decreases pairs.len(),
{
    if pairs.len() == 0 {
        Seq::empty()
    } else {
        let rest = kept_params(pairs.drop_last());
        let p = pairs.last();
        if p.0 == "page"@ {
            rest
        } else {
            rest + param_text(p.0, p.1)
        }
    }
}

pub open spec fn param_text(key: Seq<char>, value: Seq<char>) -> Seq<char> {
    percent_encoded(key) + seq!['='] + percent_encoded(value) + seq!['&']
}

/// The absolute URL of the requested resource and every query parameter
/// but `page`, ready for a page number to be added.
pub open spec fn link_base(resource_url: Seq<char>, pairs: Seq<(Seq<char>, Seq<char>)>) -> Seq<char> {
    resource_url + seq!['?'] + kept_params(pairs)
}

pub open spec fn starts_with(s: Seq<char>, prefix: Seq<char>) -> bool {
    prefix.len() <= s.len() && s.subrange(0, prefix.len() as int) == prefix
}

/// The link to page `n`.
pub open spec fn page_link(base: Seq<char>, n: nat) -> Seq<char> {
    base + "page="@ + decimal(n)
}

impl Links {
    /// Builds the links of a response from the absolute URL of the requested
    /// resource (scheme, host, port and path, without the query), the
    /// request's decoded query pairs, and the position that the upstream
    /// reported. Keys and values are percent-encoded again, so that each
    /// link's query reads back as the same pairs.
    pub fn new(resource_url: &str, pairs: &Vec<(String, String)>, meta: &Meta) -> (r: Links)
        ensures
            starts_with(r.first@, resource_url@),
            starts_with(r.last@, resource_url@),
            starts_with(r.curr@, resource_url@),
            r.prev matches Some(p) ==> starts_with(p@, resource_url@),
            r.next matches Some(n) ==> starts_with(n@, resource_url@),
            ({
                let base = link_base(resource_url@, pairs_view(pairs@));
                &&& r.first@ == page_link(base, 1)
                &&& r.last@ == page_link(base, meta.total_pages as nat)
                &&& r.curr@ == page_link(base, meta.page as nat)
                &&& (r.prev is Some <==> meta.page > 1)
                &&& (r.prev matches Some(p) ==> p@ == page_link(base, (meta.page - 1) as nat))
                &&& (r.next is Some <==> meta.page < meta.total_pages)
                &&& (r.next matches Some(n) ==> n@ == page_link(base, (meta.page + 1) as nat))
            }),
    {
        let ghost pv = pairs_view(pairs@);
        let page_key = String::from_str("page");
        let mut base = String::from_str(resource_url);
        crate::text::push_char(&mut base, '?');
        assert(base@ =~= resource_url@ + seq!['?']);
        let mut i: usize = 0;
        while i < pairs.len()
            invariant
                0 <= i <= pairs.len(),
                pv == pairs_view(pairs@),
                page_key@ == "page"@,
                base@ == resource_url@ + seq!['?'] + kept_params(pv.take(i as int)),
            decreases pairs.len() - i,
        {
            let key = &pairs[i].0;
            let value = &pairs[i].1;
            assert(pv.take(i + 1).drop_last() =~= pv.take(i as int));
            assert(pv.take(i + 1).last() == (key@, value@));
            if !(*key == page_key) {
                append_percent_encoded(&mut base, key.as_str());
                crate::text::push_char(&mut base, '=');
                append_percent_encoded(&mut base, value.as_str());
                crate::text::push_char(&mut base, '&');
                assert(base@ =~= resource_url@ + seq!['?'] + kept_params(pv.take(i + 1)));
            }
            i = i + 1;
        }
        assert(pv.take(i as int) =~= pv);
        let ghost b = base@;
        assert(b.subrange(0, resource_url@.len() as int) =~= resource_url@);
        assert forall|n: nat| #[trigger] page_link(b, n).subrange(0, resource_url@.len() as int) == resource_url@ by {
            assert(page_link(b, n).subrange(0, resource_url@.len() as int) =~= b.subrange(0, resource_url@.len() as int));
        }
        let first = page_url(&base, 1);
        let last = page_url(&base, meta.total_pages);
        let curr = page_url(&base, meta.page);
        let prev = if meta.page > 1 {
            Some(page_url(&base, meta.page - 1))
        } else {
            None
        };
        let next = if meta.page < meta.total_pages {
            Some(page_url(&base, meta.page + 1))
        } else {
            None
        };
        Links { first, last, next, prev, curr }
    }
}

fn page_url(base: &String, n: usize) -> (r: String)
    ensures
        r@ == page_link(base@, n as nat),
{
    let mut s = base.clone();
    s.append("page=");
    let d = usize_to_decimal(n);
    s.append(d.as_str());
    s
}


proof fn lemma_kept_params_contains(pairs: Seq<(Seq<char>, Seq<char>)>, i: int) -> (j: int)
    requires
        0 <= i < pairs.len(),
        pairs[i].0 != "page"@,
    ensures
        0 <= j,
        j + param_text(pairs[i].0, pairs[i].1).len() <= kept_params(pairs).len(),
        kept_params(pairs).subrange(j, j + param_text(pairs[i].0, pairs[i].1).len())
            == param_text(pairs[i].0, pairs[i].1),
    decreases pairs.len(),
{
    let t = param_text(pairs[i].0, pairs[i].1);
    let rest = kept_params(pairs.drop_last());
    if i == pairs.len() - 1 {
        assert(kept_params(pairs) == rest + t);
        assert(kept_params(pairs).subrange(rest.len() as int, rest.len() + t.len() as int) =~= t);
        rest.len() as int
    } else {
        let j = lemma_kept_params_contains(pairs.drop_last(), i);
        let whole = kept_params(pairs);
        assert(whole.subrange(0, rest.len() as int) =~= rest);
        assert(whole.subrange(j, j + t.len()) =~= rest.subrange(j, j + t.len()));
        j
    }
}

/// The links of a response differ only in the page number: each link to
/// page `n` starts with the absolute URL of the requested resource and then
/// carries, as percent-encoded `key=value`, every query parameter of the
/// request whose key is not `page`.
pub proof fn lemma_links_keep_query(resource_url: Seq<char>, pairs: Seq<(Seq<char>, Seq<char>)>, i: int, n: nat)
    requires
        0 <= i < pairs.len(),
        pairs[i].0 != "page"@,
    ensures
        page_link(link_base(resource_url, pairs), n) == link_base(resource_url, pairs) + "page="@ + decimal(n),
        page_link(link_base(resource_url, pairs), n).subrange(0, resource_url.len() as int + 1) == resource_url + seq!['?'],
        exists|j: int|
            #![trigger page_link(link_base(resource_url, pairs), n).subrange(j, j + param_text(pairs[i].0, pairs[i].1).len())]
            resource_url.len() < j && j + param_text(pairs[i].0, pairs[i].1).len() <= link_base(resource_url, pairs).len()
                && page_link(link_base(resource_url, pairs), n).subrange(j, j + param_text(pairs[i].0, pairs[i].1).len())
                == param_text(pairs[i].0, pairs[i].1),
{
    let t = param_text(pairs[i].0, pairs[i].1);
    let k = kept_params(pairs);
    let link = page_link(link_base(resource_url, pairs), n);
    let j = lemma_kept_params_contains(pairs, i);
    let off = resource_url.len() as int + 1 + j;
    assert(link.subrange(0, resource_url.len() as int + 1) =~= resource_url + seq!['?']);
    assert(link.subrange(off, off + t.len()) =~= k.subrange(j, j + t.len()));
}

/// The value of the text of a `usize`.
pub open spec fn usize_text_value(s: Seq<char>) -> nat {
    digits_value(unsigned_digits(s))
}

/// The header reads as a positive number.
pub open spec fn is_positive_text(s: Seq<char>) -> bool {
    is_usize_text(s) && usize_text_value(s) > 0
}

/// The current page: the header's value where it reads as a positive
/// number, else 1.
pub open spec fn current_page(header: Option<Seq<char>>) -> nat {
    match header {
        Some(h) => if is_positive_text(h) { usize_text_value(h) } else { 1 },
        None => 1,
    }
}

/// Reads the position of a response from its current-page and total-pages
/// headers. Both are positive. The total is never made up: without a
/// positive one there is no position.
pub fn extract_meta(page_header: Option<&str>, pages_header: Option<&str>) -> (r: Result<Meta, ProxyError>)
    ensures
        pages_header is None ==> r matches Err(ProxyError::MissingHeader),
        pages_header matches Some(t) ==> (!is_positive_text(t@) <==> r matches Err(ProxyError::MalformedHeader)),
        r is Ok <==> (pages_header matches Some(t) && is_positive_text(t@)),
        r matches Ok(m) ==> m.page > 0 && m.total_pages > 0,
        r matches Ok(m) ==> m.total_pages as nat == usize_text_value(pages_header.unwrap()@)
            && m.page as nat == current_page(match page_header { Some(h) => Some(h@), None => None }),
{
    let total = match pages_header {
        None => return Err(ProxyError::MissingHeader),
        Some(t) => match parse_usize(t) {
            Some(v) if v > 0 => v,
            _ => return Err(ProxyError::MalformedHeader),
        },
    };
    let page = match page_header {
        Some(h) => match parse_usize(h) {
            Some(v) if v > 0 => v,
            _ => 1,
        },
        None => 1,
    };
    Ok(Meta { page, total_pages: total })
}

/// `<url>;rel=name`
pub open spec fn relation(url: Seq<char>, name: Seq<char>) -> Seq<char> {
    seq!['<'] + url + ">;rel="@ + name
}

pub open spec fn optional_relation(url: Option<Seq<char>>, name: Seq<char>) -> Seq<char> {
    match url {
        Some(u) => seq![','] + relation(u, name),
        None => Seq::empty(),
    }
}

pub open spec fn option_view(s: Option<String>) -> Option<Seq<char>> {
    match s {
        Some(v) => Some(v@),
        None => None,
    }
}

/// The relation list of a response's `Link` header, in a fixed order.
pub open spec fn link_header_text(l: Links) -> Seq<char> {
    relation(l.curr@, "self"@) + seq![','] + relation(l.first@, "first"@)
        + optional_relation(option_view(l.prev), "prev"@)
        + optional_relation(option_view(l.next), "next"@)
        + seq![','] + relation(l.last@, "last"@)
}

fn append_relation(s: &mut String, url: &String, name: &str)
    ensures
        final(s)@ == old(s)@ + relation(url@, name@),
{
    crate::text::push_char(s, '<');
    s.append(url.as_str());
    s.append(">;rel=");
    s.append(name);
    assert(s@ =~= old(s)@ + relation(url@, name@));
}

impl Links {
    /// The value of the `Link` header that lists these links.
    pub fn header_value(&self) -> (r: String)
        ensures
            r@ == link_header_text(*self),
    {
        let mut s = String::new();
        append_relation(&mut s, &self.curr, "self");
        crate::text::push_char(&mut s, ',');
        append_relation(&mut s, &self.first, "first");
        let ghost fixed = s@;
        match &self.prev {
            Some(p) => {
                crate::text::push_char(&mut s, ',');
                append_relation(&mut s, p, "prev");
            },
            None => {},
        }
        assert(s@ =~= fixed + optional_relation(option_view(self.prev), "prev"@));
        let ghost with_prev = s@;
        match &self.next {
            Some(n) => {
                crate::text::push_char(&mut s, ',');
                append_relation(&mut s, n, "next");
            },
            None => {},
        }
        assert(s@ =~= with_prev + optional_relation(option_view(self.next), "next"@));
        crate::text::push_char(&mut s, ',');
        append_relation(&mut s, &self.last, "last");
        assert(s@ =~= link_header_text(*self));
        s
    }
}

} // verus!
