//! The admin list page: query strings, paging, notices and sortable column heads.

use vstd::prelude::*;

use crate::encoding::{form_encode, form_text, pair_texts};
use crate::text::{self, digits};

verus! {

broadcast use vstd::seq_lib::group_to_multiset_ensures;

/// Text order: character by character, a proper prefix first.
pub open spec fn text_lt(a: Seq<char>, b: Seq<char>) -> bool
    decreases a.len(),
{
    if b.len() == 0 {
        false
    } else if a.len() == 0 {
        true
    } else if a[0] != b[0] {
        a[0] < b[0]
    } else {
        text_lt(a.drop_first(), b.drop_first())
    }
}

/// Pair order: by name, then by value.
pub open spec fn pair_le(p: (Seq<char>, Seq<char>), q: (Seq<char>, Seq<char>)) -> bool {
    text_lt(p.0, q.0) || (p.0 == q.0 && !text_lt(q.1, p.1))
}

/// The pairs are in order.
pub open spec fn sorted(s: Seq<(Seq<char>, Seq<char>)>) -> bool {
    forall|i: int, j: int| 0 <= i < j < s.len() ==> pair_le(s[i], s[j])
}

pub(crate) proof fn lemma_text_total(a: Seq<char>, b: Seq<char>)
    ensures
        text_lt(a, b) || a == b || text_lt(b, a),
        !(text_lt(a, b) && text_lt(b, a)),
        !text_lt(a, a),
    decreases a.len(),
{
    if a.len() > 0 && b.len() > 0 {
        lemma_text_total(a.drop_first(), b.drop_first());
        if a[0] == b[0] && a.drop_first() == b.drop_first() {
            assert(a =~= seq![a[0]] + a.drop_first());
            assert(b =~= seq![b[0]] + b.drop_first());
        }
    } else if a.len() == 0 && b.len() == 0 {
        assert(a =~= b);
    }
    if a.len() > 0 {
        lemma_text_total(a.drop_first(), a.drop_first());
    }
}

pub(crate) proof fn lemma_text_trans(a: Seq<char>, b: Seq<char>, c: Seq<char>)
    requires
        text_lt(a, b),
        text_lt(b, c),
    ensures
        text_lt(a, c),
    decreases a.len(),
{
    if a.len() > 0 && b.len() > 0 && c.len() > 0 && a[0] == b[0] && b[0] == c[0] {
        lemma_text_trans(a.drop_first(), b.drop_first(), c.drop_first());
    }
}

proof fn lemma_pair_total(p: (Seq<char>, Seq<char>), q: (Seq<char>, Seq<char>))
    ensures
        pair_le(p, q) || pair_le(q, p),
{
    lemma_text_total(p.0, q.0);
    lemma_text_total(p.1, q.1);
}

proof fn lemma_pair_trans(p: (Seq<char>, Seq<char>), q: (Seq<char>, Seq<char>), r: (Seq<char>, Seq<char>))
    requires
        pair_le(p, q),
        pair_le(q, r),
    ensures
        pair_le(p, r),
{
    lemma_text_total(p.0, q.0);
    lemma_text_total(q.0, r.0);
    lemma_text_total(p.0, r.0);
    lemma_text_total(p.1, q.1);
    lemma_text_total(q.1, r.1);
    lemma_text_total(p.1, r.1);
    if text_lt(p.0, q.0) && text_lt(q.0, r.0) {
        lemma_text_trans(p.0, q.0, r.0);
    }
    if p.0 == q.0 && q.0 == r.0 && !text_lt(q.1, p.1) && !text_lt(r.1, q.1) {
        if text_lt(r.1, p.1) {
            if text_lt(p.1, q.1) {
                lemma_text_trans(r.1, p.1, q.1);
            }
        }
    }
}

pub(crate) fn less(a: &str, b: &str) -> (r: bool)
    ensures
        r == text_lt(a@, b@),
{
    let x = text::chars(a);
    let y = text::chars(b);
    let mut i: usize = 0;
    assert(a@.skip(0) =~= a@ && b@.skip(0) =~= b@);
    while i < x.len() && i < y.len()
        invariant
            i <= x@.len() && i <= y@.len(),
            x@ == a@ && y@ == b@,
            text_lt(a@, b@) == text_lt(a@.skip(i as int), b@.skip(i as int)),
        decreases x@.len() - i,
    {
        if x[i] != y[i] {
            return x[i] < y[i];
        }
        assert(a@.skip(i as int).drop_first() =~= a@.skip(i as int + 1));
        assert(b@.skip(i as int).drop_first() =~= b@.skip(i as int + 1));
        i = i + 1;
    }
    i < y.len()
}

fn pair_less_eq(p: &(String, String), q: &(String, String)) -> (r: bool)
    ensures
        r == pair_le((p.0@, p.1@), (q.0@, q.1@)),
{
    less(p.0.as_str(), q.0.as_str()) || (text::same(p.0.as_str(), q.0.as_str()) && !less(q.1.as_str(), p.1.as_str()))
}

/// The pairs whose name is not skipped, in order.
pub open spec fn kept_pairs(pairs: Seq<(Seq<char>, Seq<char>)>, skip: Seq<Seq<char>>) -> Seq<(Seq<char>, Seq<char>)>
    decreases pairs.len(),
{
    if pairs.len() == 0 {
        Seq::empty()
    } else {
        let rest = kept_pairs(pairs.drop_last(), skip);
        if skip.contains(pairs.last().0) { rest } else { rest.push(pairs.last()) }
    }
}

fn skipped(name: &str, skip: &Vec<&str>) -> (r: bool)
    ensures
        r == skip@.map_values(|s: &str| s@).contains(name@),
{
    let ghost all = skip@.map_values(|s: &str| s@);
    let mut i: usize = 0;
    while i < skip.len()
        invariant
            i <= skip@.len(),
            all == skip@.map_values(|s: &str| s@),
            forall|j: int| 0 <= j < i ==> all[j] != name@,
        decreases skip@.len() - i,
    {
        if text::same(skip[i], name) {
            assert(all[i as int] == name@);
            return true;
        }
        i = i + 1;
    }
    false
}

/// The pairs whose name is not skipped, ordered by name then value.
pub fn ordered(params: &Vec<(String, String)>, skip: &Vec<&str>) -> (r: Vec<(String, String)>)
    ensures
        sorted(pair_texts(r@)),
        pair_texts(r@).to_multiset() == kept_pairs(pair_texts(params@), skip@.map_values(|s: &str| s@)).to_multiset(),
{
    let ghost all = pair_texts(params@);
    let ghost names = skip@.map_values(|s: &str| s@);
    let mut out: Vec<(String, String)> = Vec::new();
    let mut i: usize = 0;
    while i < params.len()
        invariant
            i <= params@.len(),
            all == pair_texts(params@),
            names == skip@.map_values(|s: &str| s@),
            sorted(pair_texts(out@)),
            pair_texts(out@).to_multiset() == kept_pairs(all.take(i as int), names).to_multiset(),
        decreases params@.len() - i,
    {
        assert(all.take(i as int + 1).drop_last() =~= all.take(i as int));
        assert(all[i as int] == (params@[i as int].0@, params@[i as int].1@));
        if !skipped(params[i].0.as_str(), skip) {
            let x = (params[i].0.clone(), params[i].1.clone());
            let ghost xv = (x.0@, x.1@);
            let ghost ov = pair_texts(out@);
            let mut pos: usize = 0;
            while pos < out.len() && pair_less_eq(&out[pos], &x)
                invariant
                    pos <= out@.len(),
                    ov == pair_texts(out@),
                    xv == (x.0@, x.1@),
                    forall|k: int| 0 <= k < pos ==> pair_le(#[trigger] ov[k], xv),
                decreases out@.len() - pos,
            {
                pos = pos + 1;
            }
            proof {
                if pos < ov.len() {
                    lemma_pair_total(ov[pos as int], xv);
                }
            }
            out.insert(pos, x);
            proof {
                let nv = pair_texts(out@);
                assert(nv =~= ov.insert(pos as int, xv));
                assert forall|a: int, b: int| 0 <= a < b < nv.len() implies pair_le(nv[a], nv[b]) by {
                    if b < pos {
                        assert(nv[a] == ov[a] && nv[b] == ov[b]);
                    } else if b == pos {
                        assert(nv[a] == ov[a]);
                    } else if a == pos {
                        assert(nv[b] == ov[b - 1]);
                        if b - 1 > pos {
                            lemma_pair_trans(xv, ov[pos as int], ov[b - 1]);
                        }
                    } else if a < pos {
                        assert(nv[a] == ov[a] && nv[b] == ov[b - 1]);
                    } else {
                        assert(nv[a] == ov[a - 1] && nv[b] == ov[b - 1]);
                    }
                }
                vstd::seq_lib::to_multiset_insert(ov, pos as int, xv);
                assert(kept_pairs(all.take(i as int + 1), names) == kept_pairs(all.take(i as int), names).push(xv));
                vstd::seq_lib::to_multiset_build(kept_pairs(all.take(i as int), names), xv);
            }
        }
        i = i + 1;
    }
    assert(all.take(i as int) =~= all);
    out
}

/// The query string of the parameters whose names are not skipped, ordered by name then value.
pub fn encode(params: &Vec<(String, String)>, skip: &Vec<&str>) -> (r: String)
    ensures
        exists|s: Seq<(Seq<char>, Seq<char>)>| sorted(s)
            && s.to_multiset() == kept_pairs(pair_texts(params@), skip@.map_values(|n: &str| n@)).to_multiset()
            && r@ == form_text(s),
{
    let pairs = ordered(params, skip);
    form_encode(&pairs)
}

/// A link to the list page with a query: `?extra`, or `?base&extra`.
pub open spec fn href_of(base: Seq<char>, extra: Seq<char>) -> Seq<char> {
    if base.len() == 0 { "?"@ + extra } else { "?"@ + base + "&"@ + extra }
}

/// A link to the list page with a query.
pub fn href(base: &str, extra: &str) -> (r: String)
    ensures
        r@ == href_of(base@, extra@),
{
    let mut out = text::owned("?");
    if !base.is_empty() {
        text::push_str(&mut out, base);
        text::push_str(&mut out, "&");
    }
    text::push_str(&mut out, extra);
    out
}

/// The query string of the current page: `?` and the parameters, or nothing without them.
pub fn here(params: &Vec<(String, String)>) -> (r: String)
    ensures
        exists|s: Seq<(Seq<char>, Seq<char>)>| sorted(s) && s.to_multiset() == pair_texts(params@).to_multiset()
            && r@ == if form_text(s).len() == 0 { Seq::<char>::empty() } else { "?"@ + form_text(s) },
{
    let none: Vec<&str> = Vec::new();
    let pairs = ordered(params, &none);
    proof {
        lemma_kept_none(pair_texts(params@), none@.map_values(|n: &str| n@));
    }
    let qs = form_encode(&pairs);
    if qs.as_str().is_empty() {
        proof { reveal_strlit(""); }
        String::new()
    } else {
        let mut out = text::owned("?");
        text::push_str(&mut out, qs.as_str());
        out
    }
}

proof fn lemma_kept_none(pairs: Seq<(Seq<char>, Seq<char>)>, skip: Seq<Seq<char>>)
    requires
        skip.len() == 0,
    ensures
        kept_pairs(pairs, skip) == pairs,
    decreases pairs.len(),
{
    if pairs.len() > 0 {
        lemma_kept_none(pairs.drop_last(), skip);
        assert(pairs.drop_last().push(pairs.last()) =~= pairs);
    } else {
        assert(pairs =~= Seq::<(Seq<char>, Seq<char>)>::empty());
    }
}

} // verus!

verus! {

/// Rows per list page.
pub const PAGE: usize = 25;

/// The number a page parameter reads as, as `str::parse::<usize>` reads it.
pub open spec fn size_of(s: Seq<char>) -> Option<nat> {
    if s.len() > 0 && s[0] == '-' {
        None
    } else {
        match text::parsed_int(s) {
            Some(v) => if 0 <= v <= usize::MAX { Some(v as nat) } else { None },
            None => None,
        }
    }
}

/// Reads a page number as `str::parse::<usize>` does.
pub fn parse_size(s: &str) -> (r: Option<usize>)
    ensures
        match size_of(s@) {
            Some(n) => r == Some(n as usize),
            None => r is None,
        },
{
    let cs = text::chars(s);
    if cs.len() == 0 || cs[0] == '-' {
        return None;
    }
    let start: usize = if cs[0] == '+' { 1 } else { 0 };
    let ghost body = cs@.subrange(start as int, cs@.len() as int);
    assert(start == 1 ==> body =~= s@.drop_first());
    assert(start == 0 ==> body =~= s@);
    if start == cs.len() {
        return None;
    }
    let mut acc: u128 = 0;
    let mut over = false;
    let mut i: usize = start;
    while i < cs.len()
        invariant
            start <= i <= cs@.len(),
            cs@ == s@,
            s@.len() > 0,
            start == 0 || start == 1,
            start == 1 <==> s@[0] == '+',
            s@[0] != '-',
            body == s@.subrange(start as int, s@.len() as int),
            text::all_digits(body.take(i - start)),
            !over ==> acc == text::digits_value(body.take(i - start)) && acc <= usize::MAX,
            over ==> text::digits_value(body.take(i - start)) > usize::MAX,
        decreases cs@.len() - i,
    {
        let c = cs[i];
        if !('0' <= c && c <= '9') {
            proof {
                assert(body[i - start] == c);
                assert(!text::all_digits(body));
                if start == 0 {
                    assert(text::parsed_int(s@) is None);
                } else {
                    assert(body =~= s@.drop_first());
                    assert(text::parsed_int(s@) is None);
                }
            }
            return None;
        }
        proof {
            assert(body.take(i - start + 1).drop_last() =~= body.take(i - start));
            assert(body.take(i - start + 1).last() == c);
            assert(text::all_digits(body.take(i - start + 1))) by {
                assert forall|j: int| 0 <= j < i - start + 1 implies text::is_digit(#[trigger] body.take(i - start + 1)[j]) by {
                    if j < i - start {
                        assert(body.take(i - start + 1)[j] == body.take(i - start)[j]);
                    }
                }
            }
            lemma_digits_nonneg(body.take(i - start));
        }
        if !over {
            let d = (c as u32 - '0' as u32) as u128;
            acc = acc * 10 + d;
            if acc > usize::MAX as u128 {
                over = true;
            }
        }
        i = i + 1;
    }
    assert(body.take(i - start) =~= body);
    if over {
        return None;
    }
    Some(acc as usize)
}

proof fn lemma_digits_nonneg(s: Seq<char>)
    requires
        text::all_digits(s),
    ensures
        text::digits_value(s) >= 0,
    decreases s.len(),
{
    if s.len() > 0 {
        lemma_digits_nonneg(s.drop_last());
    }
}

/// The pages a list of `total` rows spans: `total / PAGE` rounded up.
pub open spec fn pages_of(total: nat) -> nat {
    (total + 24) / 25
}

/// The page a list shows: the `page` parameter when it reads as a number, else 1, kept between
/// 1 and the last page.
pub open spec fn page_of(raw: Option<Seq<char>>, pages: nat) -> nat {
    let want: nat = match raw {
        Some(s) => match size_of(s) {
            Some(n) => n,
            None => 1,
        },
        None => 1,
    };
    let top: nat = if pages > 1 { pages } else { 1 };
    if want < 1 { 1 } else if want > top { top } else { want }
}

/// The pages of a list split its rows without gap or overlap: every page from the first to the
/// last starts within the rows, and the last one ends at the last row.
pub proof fn pages_cover(total: nat, p: nat)
    requires
        total > 0,
        1 <= p <= pages_of(total),
    ensures
        (p - 1) * 25 < total,
        p == pages_of(total) ==> total <= p * 25,
{
    assert((p - 1) * 25 < total) by (nonlinear_arith)
        requires
            1 <= p,
            p <= (total + 24) / 25,
            total > 0;
    assert(p == (total + 24) / 25 ==> total <= p * 25) by (nonlinear_arith)
        requires
            total > 0;
}

/// Where a list page stands among `total` rows.
#[derive(Debug)]
pub struct Paging {
    /// The page shown, from 1.
    pub page: usize,
    /// How many pages there are.
    pub pages: usize,
    /// Rows skipped before the page.
    pub offset: usize,
    /// The number of the first row shown, 0 when there are none.
    pub lo: usize,
    /// The number of the last row shown.
    pub hi: usize,
}

/// Works out the page a list shows.
pub fn paging(total: usize, raw: Option<&str>) -> (r: Paging)
    requires
        total + 25 <= usize::MAX,
    ensures
        r.pages == pages_of(total as nat),
        r.page == page_of(match raw { Some(s) => Some(s@), None => None }, r.pages as nat),
        r.offset == (r.page - 1) * 25,
        r.lo == if total == 0 { 0 } else { r.offset + 1 },
        r.hi == if r.offset + 25 < total { r.offset + 25 } else { total as int },
{
    let pages = (total + 24) / 25;
    let want: usize = match raw {
        Some(s) => match parse_size(s) {
            Some(n) => n,
            None => 1,
        },
        None => 1,
    };
    let top = if pages > 1 { pages } else { 1 };
    let page = if want < 1 { 1 } else if want > top { top } else { want };
    assert(page <= top);
    assert((page - 1) * 25 <= (top - 1) * 25) by (nonlinear_arith)
        requires page <= top, page >= 1;
    assert(top * 25 <= total + 25) by (nonlinear_arith)
        requires top == (if pages > 1 { pages } else { 1 }), pages == (total + 24) / 25;
    let offset = (page - 1) * 25;
    let lo = if total == 0 { 0 } else { offset + 1 };
    let hi = if offset + 25 < total { offset + 25 } else { total };
    Paging { page, pages, offset, lo, hi }
}

/// `page=n`: the query of a page link.
pub fn page_link(kept: &str, n: usize) -> (r: String)
    ensures
        r@ == href_of(kept@, "page="@ + digits(n as nat)),
{
    let mut extra = text::owned("page=");
    let d = text::size_text(n);
    text::push_str(&mut extra, d.as_str());
    href(kept, extra.as_str())
}

/// The first, previous, next and last page links of a list page.
pub fn page_links(kept: &str, page: usize, pages: usize) -> (r: (Option<String>, Option<String>, Option<String>, Option<String>))
    requires
        page + 1 <= usize::MAX,
    ensures
        page > 1 ==> (r.0 matches Some(f) && f@ == href_of(kept@, "page=1"@)),
        page <= 1 ==> r.0 is None,
        page > 1 ==> (r.1 matches Some(p) && p@ == href_of(kept@, "page="@ + digits((page - 1) as nat))),
        page <= 1 ==> r.1 is None,
        page < pages ==> (r.2 matches Some(n) && n@ == href_of(kept@, "page="@ + digits((page + 1) as nat))),
        page >= pages ==> r.2 is None,
        page < pages ==> (r.3 matches Some(l) && l@ == href_of(kept@, "page="@ + digits(pages as nat))),
        page >= pages ==> r.3 is None,
{
    let first = if page > 1 { Some(href(kept, "page=1")) } else { None };
    let prev = if page > 1 { Some(page_link(kept, page - 1)) } else { None };
    let next = if page < pages { Some(page_link(kept, page + 1)) } else { None };
    let last = if page < pages { Some(page_link(kept, pages)) } else { None };
    (first, prev, next, last)
}

/// The notice a page shows after an action: the `notice` parameter, else `Saved.` for `saved`,
/// else `Deleted.` for `deleted`, else nothing.
pub open spec fn notice_of(params: Seq<(Seq<char>, Seq<char>)>) -> Seq<char> {
    match find_value(params, "notice"@) {
        Some(n) => n,
        None => if find_value(params, "saved"@) is Some {
            "Saved."@
        } else if find_value(params, "deleted"@) is Some {
            "Deleted."@
        } else {
            Seq::empty()
        },
    }
}

/// The value of the last pair with the name (a later one overrides an earlier one, as in a map
/// read from the query).
pub open spec fn find_value(params: Seq<(Seq<char>, Seq<char>)>, name: Seq<char>) -> Option<Seq<char>>
    decreases params.len(),
{
    if params.len() == 0 {
        None
    } else if params.last().0 == name {
        Some(params.last().1)
    } else {
        find_value(params.drop_last(), name)
    }
}

/// The value of the last pair with the name, if any.
pub fn lookup(params: &Vec<(String, String)>, name: &str) -> (r: Option<String>)
    ensures
        match r {
            Some(v) => find_value(pair_texts(params@), name@) == Some(v@),
            None => find_value(pair_texts(params@), name@) is None,
        },
{
    let ghost all = pair_texts(params@);
    let mut i: usize = params.len();
    assert(all.take(all.len() as int) =~= all);
    while i > 0
        invariant
            i <= params@.len(),
            all == pair_texts(params@),
            find_value(all, name@) == find_value(all.take(i as int), name@),
        decreases i,
    {
        assert(all.take(i as int).last() == all[i - 1]);
        if text::same(params[i - 1].0.as_str(), name) {
            return Some(params[i - 1].1.clone());
        }
        assert(all.take(i as int).drop_last() =~= all.take(i - 1));
        i = i - 1;
    }
    None
}

/// The notice a page shows after an action.
pub fn notice(params: &Vec<(String, String)>) -> (r: String)
    ensures
        r@ == notice_of(pair_texts(params@)),
{
    match lookup(params, "notice") {
        Some(n) => n,
        None => if lookup(params, "saved").is_some() {
            text::owned("Saved.")
        } else if lookup(params, "deleted").is_some() {
            text::owned("Deleted.")
        } else {
            proof { reveal_strlit(""); }
            String::new()
        },
    }
}

/// The marker and the sort a column head links to: `▲` and descending when the list is sorted
/// by the column, `▼` and ascending when sorted by it descending, else no marker and ascending.
pub open spec fn head_of(name: Seq<char>, sort: Seq<char>) -> (Seq<char>, Seq<char>) {
    if sort == name {
        ("▲"@, "-"@ + name)
    } else if sort == "-"@ + name {
        ("▼"@, name)
    } else {
        (Seq::empty(), name)
    }
}

/// A sortable column head: its name, its marker, and the link that sorts by it.
#[derive(Debug)]
pub struct Head {
    /// The column's name.
    pub name: String,
    /// `▲`, `▼` or nothing.
    pub marker: String,
    /// The link that sorts by the column.
    pub href: String,
}

/// The head of a column of a list sorted by `sort`; `bare` is the query without page and sort.
pub fn head(name: &str, sort: &str, bare: &str) -> (r: Head)
    ensures
        r.name@ == name@,
        r.marker@ == head_of(name@, sort@).0,
        r.href@ == href_of(bare@, "sort="@ + head_of(name@, sort@).1),
{
    let mut down = text::owned("-");
    text::push_str(&mut down, name);
    let (marker, toggle) = if text::same(sort, name) {
        (text::owned("▲"), down)
    } else if text::same(sort, down.as_str()) {
        (text::owned("▼"), text::owned(name))
    } else {
        proof { reveal_strlit(""); }
        (String::new(), text::owned(name))
    };
    let mut extra = text::owned("sort=");
    text::push_str(&mut extra, toggle.as_str());
    Head { name: text::owned(name), marker, href: href(bare, extra.as_str()) }
}

} // verus!
