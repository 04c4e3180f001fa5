//! Flat reads of the catalogue: fixed-size pages of products, a search on
//! product names, a lookup by id, and the root categories.
use crate::hierarchy::Catalogue;
use crate::models::{Category, Product};
use vstd::prelude::*;
use vstd::string::*;

verus! {

/// Products per page.
pub const PAGE_SIZE: i64 = 50;

/// Page `page` (zero-based) of `items`: empty for a negative page or one
/// that starts past the end.
pub open spec fn page_of(items: Seq<Product>, page: i64) -> Seq<Product> {
    let start = PAGE_SIZE * page;
    if page < 0 || start >= items.len() {
        Seq::empty()
    } else if start + PAGE_SIZE <= items.len() {
        items.subrange(start, start + PAGE_SIZE)
    } else {
        items.subrange(start, items.len() as int)
    }
}

pub open spec fn is_ascii_upper(c: char) -> bool {
    'A' <= c && c <= 'Z'
}

/// Equal characters, or the same ASCII letter in either case.
pub open spec fn same_letter(a: char, b: char) -> bool {
    ||| a == b
    ||| is_ascii_upper(a) && a as u32 + 32 == b as u32
    ||| is_ascii_upper(b) && b as u32 + 32 == a as u32
}

pub open spec fn matches_at(name: Seq<char>, query: Seq<char>, i: int) -> bool {
    forall|j: int| 0 <= j < query.len() ==> #[trigger] same_letter(name[i + j], query[j])
}

/// `query` occurs in `name`, ASCII letters compared without case.
pub open spec fn name_contains(name: Seq<char>, query: Seq<char>) -> bool {
    exists|i: int| 0 <= i && i + query.len() <= name.len() && #[trigger] matches_at(name, query, i)
}

pub open spec fn search_hits(items: Seq<Product>, query: Seq<char>) -> Seq<Product> {
    items.filter(|p: Product| name_contains(p.name@, query))
}

pub open spec fn root_categories_of(cats: Seq<Category>) -> Seq<Category> {
    cats.filter(|c: Category| c.parent_id is None)
}

fn chars_match(a: char, b: char) -> (r: bool)
    ensures
        r == same_letter(a, b),
{
    let x = a as u32;
    let y = b as u32;
    x == y || ('A' <= a && a <= 'Z' && x + 32 == y) || ('A' <= b && b <= 'Z' && y + 32 == x)
}

/// Whether `query` occurs in `name`, ASCII letters compared without case.
pub fn contains_ignoring_case(name: &str, query: &str) -> (r: bool)
    ensures
        r == name_contains(name@, query@),
{
    let n = name.unicode_len();
    let m = query.unicode_len();
    if m > n {
        return false;
    }
    let mut i: usize = 0;
    while i <= n - m
        invariant
            n == name@.len(),
            m == query@.len(),
            m <= n,
            i <= n - m + 1,
            forall|k: int| 0 <= k < i ==> !#[trigger] matches_at(name@, query@, k),
        decreases n - m + 1 - i,
    {
        let mut j: usize = 0;
        let mut ok = true;
        while j < m
            invariant
                n == name@.len(),
                m == query@.len(),
                i + m <= n,
                j <= m,
                ok <==> forall|t: int| 0 <= t < j ==> #[trigger] same_letter(name@[i + t], query@[t]),
            decreases m - j,
        {
            if !chars_match(name.get_char(i + j), query.get_char(j)) {
                ok = false;
            }
            j = j + 1;
        }
        if ok {
            assert(matches_at(name@, query@, i as int));
            return true;
        }
        i = i + 1;
    }
    false
}

/// Copies `items[start..end]`.
fn copy_range(items: &Vec<Product>, start: usize, end: usize) -> (r: Vec<Product>)
    requires
        start <= end <= items@.len(),
    ensures
        r@ == items@.subrange(start as int, end as int),
{
    let mut out: Vec<Product> = Vec::new();
    let mut i: usize = start;
    while i < end
        invariant
            start <= i <= end,
            end <= items@.len(),
            out@ == items@.subrange(start as int, i as int),
        decreases end - i,
    {
        out.push(items[i].copy());
        assert(items@.subrange(start as int, i + 1) =~= items@.subrange(start as int, i as int).push(items@[i as int]));
        i = i + 1;
    }
    out
}

/// Page `page` of `items`.
pub fn paginate(items: &Vec<Product>, page: i64) -> (r: Vec<Product>)
    ensures
        r@ == page_of(items@, page),
{
    if page < 0 {
        return Vec::new();
    }
    let len = items.len();
    if page as u64 > (len / 50) as u64 {
        assert(PAGE_SIZE * page >= items@.len()) by (nonlinear_arith)
            requires page as int > len as int / 50, len == items@.len(), PAGE_SIZE == 50;
        return Vec::new();
    }
    let start: usize = (page as usize) * 50;
    assert(start as int == PAGE_SIZE * page);
    if start >= len {
        return Vec::new();
    }
    let end: usize = if len - start >= 50 { start + 50 } else { len };
    copy_range(items, start, end)
}

impl Catalogue {
    /// Page `page` of all products, by ascending id.
    pub fn product_page(&self, page: i64) -> (r: Vec<Product>)
        ensures
            r@ == page_of(self.products_view(), page),
    {
        paginate(self.products(), page)
    }

    /// Page `page` of the products whose name contains `query`.
    pub fn product_search(&self, query: &str, page: i64) -> (r: Vec<Product>)
        ensures
            r@ == page_of(search_hits(self.products_view(), query@), page),
    {
        let items = self.products();
        let mut hits: Vec<Product> = Vec::new();
        let mut i: usize = 0;
        while i < items.len()
            invariant
                i <= items@.len(),
                hits@ == items@.take(i as int).filter(|p: Product| name_contains(p.name@, query@)),
            decreases items@.len() - i,
        {
            let keep = contains_ignoring_case(items[i].name.as_str(), query);
            if keep {
                hits.push(items[i].copy());
            }
            proof {
                crate::hierarchy::lemma_filter_step(items@, i as int, |p: Product| name_contains(p.name@, query@));
            }
            i = i + 1;
        }
        assert(items@.take(items@.len() as int) =~= items@);
        paginate(&hits, page)
    }

    /// The product with id `id`.
    pub fn product_get(&self, id: i64) -> (r: Option<Product>)
        requires
            self.wf(),
        ensures
            r is None <==> forall|k: int| 0 <= k < self.products_view().len() ==> self.products_view()[k].id != id,
            r matches Some(p) ==> p.id == id && self.products_view().contains(p),
    {
        let items = self.products();
        let mut i: usize = 0;
        while i < items.len()
            invariant
                items@ == self.products_view(),
                i <= items@.len(),
                forall|k: int| 0 <= k < i ==> items@[k].id != id,
            decreases items@.len() - i,
        {
            if items[i].id == id {
                let p = items[i].copy();
                assert(items@[i as int] == p);
                return Some(p);
            }
            i = i + 1;
        }
        None
    }

    /// The root categories, by ascending id.
    pub fn categories_get(&self) -> (r: Vec<Category>)
        ensures
            r@ == root_categories_of(self.categories_view()),
    {
        let cats = self.categories();
        let mut out: Vec<Category> = Vec::new();
        let mut i: usize = 0;
        while i < cats.len()
            invariant
                i <= cats@.len(),
                out@ == cats@.take(i as int).filter(|c: Category| c.parent_id is None),
            decreases cats@.len() - i,
        {
            let keep = cats[i].parent_id.is_none();
            if keep {
                out.push(cats[i].copy());
            }
            proof {
                crate::hierarchy::lemma_filter_step(cats@, i as int, |c: Category| c.parent_id is None);
            }
            i = i + 1;
        }
        assert(cats@.take(cats@.len() as int) =~= cats@);
        out
    }
}

} // verus!
