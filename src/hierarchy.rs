//! Resolution of a category's subtree, its products and its ancestors over an
//! in-memory arena of categories and products.
use crate::models::{Category, Product};
use vstd::prelude::*;

verus! {

/// Whether some category in `cats` has the id `id`.
pub open spec fn has_category(cats: Seq<Category>, id: i64) -> bool {
    exists|i: int| 0 <= i < cats.len() && cats[i].id == id
}

/// The position of the category with id `id`.
pub open spec fn category_index(cats: Seq<Category>, id: i64) -> int {
    choose|i: int| 0 <= i < cats.len() && cats[i].id == id
}

/// One step up the forest: the parent of `id`, when both `id` and its parent
/// are stored.
pub open spec fn parent_link(cats: Seq<Category>, id: i64) -> Option<i64> {
    if has_category(cats, id) {
        match cats[category_index(cats, id)].parent_id {
            Some(p) => if has_category(cats, p) {
                Some(p)
            } else {
                None
            },
            None => None,
        }
    } else {
        None
    }
}

/// The category reached from `id` after `n` steps up, if every step exists.
pub open spec fn climb(cats: Seq<Category>, id: i64, n: nat) -> Option<i64>
    decreases n,
{
    if n == 0 {
        if has_category(cats, id) {
            Some(id)
        } else {
            None
        }
    } else {
        match climb(cats, id, (n - 1) as nat) {
            Some(a) => parent_link(cats, a),
            None => None,
        }
    }
}

/// `id` lies in the subtree rooted at `root`: it reaches `root` within as many
/// steps up as there are categories (the depth bound that cuts off cycles).
pub open spec fn in_subtree(cats: Seq<Category>, root: i64, id: i64) -> bool {
    exists|n: nat| n <= cats.len() && #[trigger] climb(cats, id, n) == Some(root)
}

/// `anc` is a proper ancestor of `id`, within the same depth bound.
pub open spec fn is_ancestor(cats: Seq<Category>, id: i64, anc: i64) -> bool {
    anc != id && exists|n: nat| 1 <= n <= cats.len() && #[trigger] climb(cats, id, n) == Some(anc)
}

/// The ids are strictly ascending, hence unique.
pub open spec fn categories_ascending(cats: Seq<Category>) -> bool {
    forall|i: int, j: int| 0 <= i < j < cats.len() ==> cats[i].id < cats[j].id
}

pub open spec fn products_ascending(prods: Seq<Product>) -> bool {
    forall|i: int, j: int| 0 <= i < j < prods.len() ==> prods[i].id < prods[j].id
}

pub open spec fn is_descendant_category(cats: Seq<Category>, root: i64, c: Category) -> bool {
    in_subtree(cats, root, c.id)
}

pub open spec fn in_rollup(cats: Seq<Category>, root: i64, p: Product) -> bool {
    match p.category_id {
        Some(k) => in_subtree(cats, root, k),
        None => false,
    }
}

pub open spec fn is_ancestor_category(cats: Seq<Category>, id: i64, c: Category) -> bool {
    is_ancestor(cats, id, c.id)
}

/// The descendant closure of `root` (`root` included), by ascending id.
pub open spec fn sub_categories_of(cats: Seq<Category>, root: i64) -> Seq<Category> {
    cats.filter(|c: Category| is_descendant_category(cats, root, c))
}

/// The products filed anywhere in the subtree of `root`, by ascending id.
pub open spec fn rollup_of(cats: Seq<Category>, prods: Seq<Product>, root: i64) -> Seq<Product> {
    prods.filter(|p: Product| in_rollup(cats, root, p))
}

/// The proper ancestors of `id`, by ascending id.
pub open spec fn ancestors_of(cats: Seq<Category>, id: i64) -> Seq<Category> {
    cats.filter(|c: Category| is_ancestor_category(cats, id, c))
}

pub(crate) proof fn lemma_filter_step<A>(s: Seq<A>, i: int, f: spec_fn(A) -> bool)
    requires
        0 <= i < s.len(),
    ensures
        s.take(i + 1).filter(f) == (if f(s[i]) {
            s.take(i).filter(f).push(s[i])
        } else {
            s.take(i).filter(f)
        }),
{
    reveal(Seq::filter);
    assert(s.take(i + 1).drop_last() =~= s.take(i));
    assert(s.take(i + 1).last() == s[i]);
}

/// Filtering a sequence whose keys strictly ascend keeps them ascending.
pub proof fn lemma_filter_ascending<A>(s: Seq<A>, key: spec_fn(A) -> int, f: spec_fn(A) -> bool)
    requires
        forall|i: int, j: int| 0 <= i < j < s.len() ==> key(s[i]) < key(s[j]),
    ensures
        forall|i: int, j: int| 0 <= i < j < s.filter(f).len() ==> key(s.filter(f)[i]) < key(s.filter(f)[j]),
    decreases s.len(),
{
    reveal(Seq::filter);
    if s.len() > 0 {
        let d = s.drop_last();
        lemma_filter_ascending(d, key, f);
        if f(s.last()) {
            let t = s.filter(f);
            assert(t == d.filter(f).push(s.last()));
            assert forall|i: int, j: int| 0 <= i < j < t.len() implies key(t[i]) < key(t[j]) by {
                if j == t.len() - 1 {
                    assert(t[i] == d.filter(f)[i]);
                    assert(d.filter(f).contains(t[i]));
                    d.lemma_filter_contains_rev(f, t[i]);
                    let w = choose|w: int| 0 <= w < d.len() && d[w] == t[i];
                    assert(s[w] == t[i]);
                } else {
                    assert(t[i] == d.filter(f)[i]);
                    assert(t[j] == d.filter(f)[j]);
                }
            }
        } else {
            assert(s.filter(f) == d.filter(f));
        }
    }
}

/// The catalogue's categories and products, each kept in ascending id order.
pub struct Catalogue {
    categories: Vec<Category>,
    products: Vec<Product>,
}

impl Catalogue {
    /// The stored categories, in order.
    pub closed spec fn categories_view(&self) -> Seq<Category> {
        self.categories@
    }

    /// The stored products, in order.
    pub closed spec fn products_view(&self) -> Seq<Product> {
        self.products@
    }

    pub open spec fn wf(&self) -> bool {
        categories_ascending(self.categories_view()) && products_ascending(self.products_view())
    }

    /// Builds the arena; refuses input whose ids are not strictly ascending.
    pub fn new(categories: Vec<Category>, products: Vec<Product>) -> (r: Option<Catalogue>)
        ensures
            r is Some <==> categories_ascending(categories@) && products_ascending(products@),
            r matches Some(t) ==> t.wf() && t.categories_view() == categories@
                && t.products_view() == products@,
    {
        let mut i: usize = 1;
        while i < categories.len()
            invariant
                1 <= i,
                forall|a: int, b: int| 0 <= a < b < i && b < categories@.len() ==> categories@[a].id < categories@[b].id,
            decreases categories.len() - i,
        {
            if categories[i - 1].id >= categories[i].id {
                return None;
            }
            proof {
                assert forall|a: int, b: int| 0 <= a < b < i + 1 && b < categories@.len() implies categories@[a].id < categories@[b].id by {
                    if b == i as int && a < i - 1 {
                        assert(categories@[a].id < categories@[i - 1].id);
                    }
                }
            }
            i = i + 1;
        }
        let mut j: usize = 1;
        while j < products.len()
            invariant
                1 <= j,
                categories_ascending(categories@),
                forall|a: int, b: int| 0 <= a < b < j && b < products@.len() ==> products@[a].id < products@[b].id,
            decreases products.len() - j,
        {
            if products[j - 1].id >= products[j].id {
                return None;
            }
            proof {
                assert forall|a: int, b: int| 0 <= a < b < j + 1 && b < products@.len() implies products@[a].id < products@[b].id by {
                    if b == j as int && a < j - 1 {
                        assert(products@[a].id < products@[j - 1].id);
                    }
                }
            }
            j = j + 1;
        }
        Some(Catalogue { categories, products })
    }

    pub fn categories(&self) -> (r: &Vec<Category>)
        ensures
            r@ == self.categories_view(),
    {
        &self.categories
    }

    pub fn products(&self) -> (r: &Vec<Product>)
        ensures
            r@ == self.products_view(),
    {
        &self.products
    }

    /// The position of the category with id `id`, if it is stored; a binary
    /// search over the ascending ids.
    pub fn find_category(&self, id: i64) -> (r: Option<usize>)
        requires
            self.wf(),
        ensures
            r is None <==> !has_category(self.categories_view(), id),
            r matches Some(i) ==> i < self.categories_view().len() && self.categories_view()[i as int].id == id
                && category_index(self.categories_view(), id) == i,
    {
        let ghost cats = self.categories_view();
        let mut lo: usize = 0;
        let mut hi: usize = self.categories.len();
        while lo < hi
            invariant
                self.wf(),
                cats == self.categories_view(),
                lo <= hi <= cats.len(),
                forall|k: int| 0 <= k < lo ==> cats[k].id < id,
                forall|k: int| hi <= k < cats.len() ==> cats[k].id > id,
            decreases hi - lo,
        {
            let mid = lo + (hi - lo) / 2;
            let m = self.categories[mid].id;
            if m == id {
                proof {
                    let k = category_index(cats, id);
                    assert(has_category(cats, id));
                    if k != mid as int {
                        if k < mid as int {
                            assert(cats[k].id < cats[mid as int].id);
                        } else {
                            assert(cats[mid as int].id < cats[k].id);
                        }
                    }
                }
                return Some(mid);
            } else if m < id {
                proof {
                    assert forall|k: int| 0 <= k < mid + 1 implies cats[k].id < id by {
                        if k < mid as int {
                            assert(cats[k].id < cats[mid as int].id);
                        }
                    }
                }
                lo = mid + 1;
            } else {
                proof {
                    assert forall|k: int| mid <= k < cats.len() implies cats[k].id > id by {
                        if k > mid as int {
                            assert(cats[mid as int].id < cats[k].id);
                        }
                    }
                }
                hi = mid;
            }
        }
        None
    }

    /// One step up from `id`: its parent, when both are stored.
    pub fn parent_of(&self, id: i64) -> (r: Option<i64>)
        requires
            self.wf(),
        ensures
            r == parent_link(self.categories_view(), id),
    {
        match self.find_category(id) {
            Some(i) => match self.categories[i].parent_id {
                Some(p) => match self.find_category(p) {
                    Some(_) => Some(p),
                    None => None,
                },
                None => None,
            },
            None => None,
        }
    }

    /// Whether `id` lies in the subtree rooted at `root` (`root` included).
    pub fn is_in_subtree(&self, root: i64, id: i64) -> (r: bool)
        requires
            self.wf(),
        ensures
            r == in_subtree(self.categories_view(), root, id),
    {
        let ghost cats = self.categories_view();
        let mut cur: Option<i64> = match self.find_category(id) {
            Some(_) => Some(id),
            None => None,
        };
        if let Some(a) = cur {
            if a == root {
                assert(climb(cats, id, 0) == Some(root));
                return true;
            }
        }
        let n = self.categories.len();
        let mut k: usize = 0;
        while k < n
            invariant
                self.wf(),
                cats == self.categories_view(),
                n == cats.len(),
                k <= n,
                cur == climb(cats, id, k as nat),
                forall|m: nat| m <= k ==> #[trigger] climb(cats, id, m) != Some(root),
            decreases n - k,
        {
            cur = match cur {
                Some(a) => self.parent_of(a),
                None => None,
            };
            k = k + 1;
            assert(cur == climb(cats, id, k as nat));
            match cur {
                Some(a) => {
                    if a == root {
                        return true;
                    }
                },
                None => {
                    proof {
                        assert forall|m: nat| m <= n implies #[trigger] climb(cats, id, m) != Some(root) by {
                            if m > k {
                                lemma_climb_stops(cats, id, k as nat, m);
                            }
                        }
                    }
                    return false;
                },
            }
        }
        false
    }

    /// The ids met walking up from `id`, one step at a time, for at most as
    /// many steps as there are categories.
    fn ancestor_trail(&self, id: i64) -> (r: Vec<i64>)
        requires
            self.wf(),
        ensures
            forall|x: i64| r@.contains(x) <==> exists|n: nat| 1 <= n <= self.categories_view().len()
                && #[trigger] climb(self.categories_view(), id, n) == Some(x),
    {
        let ghost cats = self.categories_view();
        let mut trail: Vec<i64> = Vec::new();
        let mut cur: Option<i64> = match self.find_category(id) {
            Some(_) => Some(id),
            None => None,
        };
        let n = self.categories.len();
        let mut k: usize = 0;
        while k < n
            invariant
                self.wf(),
                cats == self.categories_view(),
                n == cats.len(),
                k <= n,
                cur == climb(cats, id, k as nat),
                forall|x: i64| trail@.contains(x) <==> exists|m: nat| 1 <= m <= k
                    && #[trigger] climb(cats, id, m) == Some(x),
            decreases n - k,
        {
            cur = match cur {
                Some(a) => self.parent_of(a),
                None => None,
            };
            k = k + 1;
            assert(cur == climb(cats, id, k as nat));
            let ghost old_trail = trail@;
            if let Some(a) = cur {
                trail.push(a);
            }
            proof {
                assert forall|x: i64| trail@.contains(x) <==> exists|m: nat| 1 <= m <= k
                    && #[trigger] climb(cats, id, m) == Some(x) by {
                    if trail@.contains(x) {
                        if !old_trail.contains(x) {
                            assert(trail@[trail@.len() - 1] == x || old_trail.contains(x)) by {
                                let w = choose|w: int| 0 <= w < trail@.len() && trail@[w] == x;
                                if w < old_trail.len() {
                                    assert(old_trail[w] == x);
                                }
                            }
                            assert(climb(cats, id, k as nat) == Some(x));
                        }
                    }
                    if exists|m: nat| 1 <= m <= k && #[trigger] climb(cats, id, m) == Some(x) {
                        let m = choose|m: nat| 1 <= m <= k && #[trigger] climb(cats, id, m) == Some(x);
                        if m < k {
                            assert(old_trail.contains(x));
                            let w = choose|w: int| 0 <= w < old_trail.len() && old_trail[w] == x;
                            assert(trail@[w] == x);
                        } else {
                            assert(trail@[trail@.len() - 1] == x);
                        }
                    }
                }
            }
        }
        trail
    }

    /// The descendant closure of `root`: `root` itself and every category
    /// below it, by ascending id; empty when `root` is not stored.
    pub fn sub_categories(&self, root: i64) -> (r: Vec<Category>)
        requires
            self.wf(),
        ensures
            r@ == sub_categories_of(self.categories_view(), root),
    {
        let ghost cats = self.categories_view();
        let mut out: Vec<Category> = Vec::new();
        let mut i: usize = 0;
        while i < self.categories.len()
            invariant
                self.wf(),
                cats == self.categories_view(),
                i <= cats.len(),
                out@ == cats.take(i as int).filter(|c: Category| is_descendant_category(cats, root, c)),
            decreases cats.len() - i,
        {
            let c = &self.categories[i];
            let keep = self.is_in_subtree(root, c.id);
            assert(*c == cats[i as int]);
            assert((|c: Category| is_descendant_category(cats, root, c))(cats[i as int]) == keep);
            if keep {
                out.push(c.copy());
            }
            proof {
                lemma_filter_step(cats, i as int, |c: Category| is_descendant_category(cats, root, c));
            }
            i = i + 1;
        }
        assert(cats.take(cats.len() as int) =~= cats);
        out
    }

    /// The products filed anywhere in the subtree of `root`, by ascending id.
    pub fn subtree_products(&self, root: i64) -> (r: Vec<Product>)
        requires
            self.wf(),
        ensures
            r@ == rollup_of(self.categories_view(), self.products_view(), root),
    {
        let ghost cats = self.categories_view();
        let ghost prods = self.products_view();
        let mut out: Vec<Product> = Vec::new();
        let mut i: usize = 0;
        while i < self.products.len()
            invariant
                self.wf(),
                cats == self.categories_view(),
                prods == self.products_view(),
                i <= prods.len(),
                out@ == prods.take(i as int).filter(|p: Product| in_rollup(cats, root, p)),
            decreases prods.len() - i,
        {
            let p = &self.products[i];
            let keep = match p.category_id {
                Some(k) => self.is_in_subtree(root, k),
                None => false,
            };
            assert((|p: Product| in_rollup(cats, root, p))(prods[i as int]) == keep);
            if keep {
                out.push(p.copy());
            }
            proof {
                lemma_filter_step(prods, i as int, |p: Product| in_rollup(cats, root, p));
            }
            i = i + 1;
        }
        assert(prods.take(prods.len() as int) =~= prods);
        out
    }

    /// The proper ancestors of `id`, by ascending id; empty for a root or
    /// for an id that is not stored.
    pub fn parent_categories(&self, id: i64) -> (r: Vec<Category>)
        requires
            self.wf(),
        ensures
            r@ == ancestors_of(self.categories_view(), id),
    {
        let ghost cats = self.categories_view();
        let trail = self.ancestor_trail(id);
        let mut out: Vec<Category> = Vec::new();
        let mut i: usize = 0;
        while i < self.categories.len()
            invariant
                self.wf(),
                cats == self.categories_view(),
                i <= cats.len(),
                forall|x: i64| trail@.contains(x) <==> exists|n: nat| 1 <= n <= cats.len()
                    && #[trigger] climb(cats, id, n) == Some(x),
                out@ == cats.take(i as int).filter(|c: Category| is_ancestor_category(cats, id, c)),
            decreases cats.len() - i,
        {
            let c = &self.categories[i];
            let mut seen = false;
            let mut j: usize = 0;
            while j < trail.len()
                invariant
                    j <= trail@.len(),
                    seen <==> trail@.take(j as int).contains(c.id),
                decreases trail@.len() - j,
            {
                if trail[j] == c.id {
                    seen = true;
                }
                proof {
                    let t = trail@.take(j + 1);
                    assert(t.last() == trail@[j as int]);
                    if trail@.take(j as int).contains(c.id) {
                        let w = choose|w: int| 0 <= w < j && trail@.take(j as int)[w] == c.id;
                        assert(t[w] == c.id);
                    }
                    if t.contains(c.id) && t.last() != c.id {
                        let w = choose|w: int| 0 <= w < j + 1 && t[w] == c.id;
                        assert(trail@.take(j as int)[w] == c.id);
                    }
                }
                j = j + 1;
            }
            assert(trail@.take(trail@.len() as int) =~= trail@);
            let keep = c.id != id && seen;
            assert((|c: Category| is_ancestor_category(cats, id, c))(cats[i as int]) == keep);
            if keep {
                out.push(c.copy());
            }
            proof {
                lemma_filter_step(cats, i as int, |c: Category| is_ancestor_category(cats, id, c));
            }
            i = i + 1;
        }
        assert(cats.take(cats.len() as int) =~= cats);
        out
    }

    /// The full view of one category: its subtree's products, its descendant
    /// closure (itself included) and the categories above it. An id that is not stored gives
    /// three empty lists.
    pub fn resolve(&self, id: i64) -> (r: GetCategoryResponse)
        requires
            self.wf(),
        ensures
            resolves(self.categories_view(), self.products_view(), id, r),
            products_ascending(r.products@),
            categories_ascending(r.sub_categories@),
            categories_ascending(r.parent_categories@),
    {
        let ghost cats = self.categories_view();
        let ghost prods = self.products_view();
        proof {
            let ck = |c: Category| c.id as int;
            let pk = |p: Product| p.id as int;
            lemma_filter_ascending(cats, ck, |c: Category| is_descendant_category(cats, id, c));
            lemma_filter_ascending(cats, ck, |c: Category| is_ancestor_category(cats, id, c));
            lemma_filter_ascending(prods, pk, |p: Product| in_rollup(cats, id, p));
        }
        GetCategoryResponse {
            products: self.subtree_products(id),
            sub_categories: self.sub_categories(id),
            parent_categories: self.parent_categories(id),
        }
    }
}

/// What the category view of one id holds.
pub struct GetCategoryResponse {
    pub products: Vec<Product>,
    pub sub_categories: Vec<Category>,
    pub parent_categories: Vec<Category>,
}

/// `r` is the category view of `id` over these categories and products.
pub open spec fn resolves(cats: Seq<Category>, prods: Seq<Product>, id: i64, r: GetCategoryResponse) -> bool {
    &&& r.products@ == rollup_of(cats, prods, id)
    &&& r.sub_categories@ == sub_categories_of(cats, id)
    &&& r.parent_categories@ == ancestors_of(cats, id)
}

/// No category reaches itself by walking up one or more steps.
pub open spec fn acyclic(cats: Seq<Category>) -> bool {
    forall|x: i64, n: nat| 1 <= n ==> #[trigger] climb(cats, x, n) != Some(x)
}

/// Every category that a walk up reaches is stored.
pub proof fn lemma_climb_stored(cats: Seq<Category>, id: i64, n: nat)
    ensures
        climb(cats, id, n) matches Some(a) ==> has_category(cats, a),
    decreases n,
{
    if n > 0 {
        lemma_climb_stored(cats, id, (n - 1) as nat);
    }
}

/// Walking `a` steps up and then `b` more is walking `a + b` steps up.
pub proof fn lemma_climb_add(cats: Seq<Category>, id: i64, a: nat, b: nat)
    requires
        climb(cats, id, a) is Some,
    ensures
        climb(cats, id, a + b) == climb(cats, climb(cats, id, a)->0, b),
    decreases b,
{
    if b == 0 {
        lemma_climb_stored(cats, id, a);
    } else {
        lemma_climb_add(cats, id, a, (b - 1) as nat);
        assert((a + b - 1) as nat == a + (b - 1) as nat);
    }
}

/// Once a walk up stops, it stays stopped.
pub proof fn lemma_climb_stops(cats: Seq<Category>, id: i64, a: nat, b: nat)
    requires
        climb(cats, id, a) is None,
        a <= b,
    ensures
        climb(cats, id, b) is None,
    decreases b - a,
{
    if a < b {
        lemma_climb_stops(cats, id, a, (b - 1) as nat);
    }
}

/// A stored category belongs to its own descendant closure.
pub proof fn lemma_category_in_own_subtree(cats: Seq<Category>, id: i64)
    requires
        has_category(cats, id),
    ensures
        in_subtree(cats, id, id),
        sub_categories_of(cats, id).contains(cats[category_index(cats, id)]),
{
    broadcast use vstd::seq_lib::group_filter_ensures;

    assert(climb(cats, id, 0) == Some(id));
    let k = category_index(cats, id);
    assert((|c: Category| is_descendant_category(cats, id, c))(cats[k]));
}

/// Filtering keeps exactly one element when the predicate holds at exactly
/// one position.
proof fn lemma_filter_single<A>(s: Seq<A>, f: spec_fn(A) -> bool, k: int)
    requires
        0 <= k < s.len(),
        f(s[k]),
        forall|i: int| 0 <= i < s.len() && i != k ==> !f(s[i]),
    ensures
        s.filter(f) == seq![s[k]],
    decreases s.len(),
{
    broadcast use vstd::seq_lib::group_filter_ensures;

    reveal(Seq::filter);
    let d = s.drop_last();
    if k == s.len() - 1 {
        if d.filter(f).len() > 0 {
            let e = d.filter(f)[0];
            assert(d.filter(f).contains(e));
            d.lemma_filter_contains_rev(f, e);
            let w = choose|w: int| 0 <= w < d.len() && d[w] == e;
            assert(s[w] == e);
        }
        assert(d.filter(f) =~= Seq::<A>::empty());
        assert(s.filter(f) =~= seq![s[k]]);
    } else {
        lemma_filter_single(d, f, k);
        assert(s.filter(f) == d.filter(f));
    }
}

/// The stored parent of a category is among its ancestors, and a category is
/// never among its own ancestors.
pub proof fn lemma_parent_is_ancestor(cats: Seq<Category>, id: i64, parent: i64)
    requires
        has_category(cats, id),
        has_category(cats, parent),
        cats[category_index(cats, id)].parent_id == Some(parent),
        parent != id,
    ensures
        is_ancestor(cats, id, parent),
        ancestors_of(cats, id).contains(cats[category_index(cats, parent)]),
        forall|k: int| 0 <= k < ancestors_of(cats, id).len() ==> ancestors_of(cats, id)[k].id != id,
{
    broadcast use vstd::seq_lib::group_filter_ensures;

    let f = |c: Category| is_ancestor_category(cats, id, c);
    assert(climb(cats, id, 0) == Some(id));
    assert(climb(cats, id, 1) == Some(parent));
    let k = category_index(cats, parent);
    assert(f(cats[k]));
}

proof fn lemma_not_below_and_above(cats: Seq<Category>, id: i64, x: i64)
    requires
        acyclic(cats),
    ensures
        !(in_subtree(cats, id, x) && is_ancestor(cats, id, x)),
{
    if in_subtree(cats, id, x) && is_ancestor(cats, id, x) {
        let n1 = choose|n: nat| n <= cats.len() && #[trigger] climb(cats, x, n) == Some(id);
        let n2 = choose|n: nat| 1 <= n <= cats.len() && #[trigger] climb(cats, id, n) == Some(x);
        lemma_climb_add(cats, x, n1, n2);
        assert(climb(cats, x, n1 + n2) == Some(x));
    }
}

/// In a forest without cycles no category is both in the descendant closure
/// of `id` and among its ancestors; so no id is both in the descendant list
/// of `id` and in its ancestor list.
pub proof fn lemma_subtree_and_ancestors_disjoint(cats: Seq<Category>, id: i64)
    requires
        acyclic(cats),
    ensures
        forall|x: i64| !(in_subtree(cats, id, x) && is_ancestor(cats, id, x)),
        forall|a: int, b: int|
            0 <= a < sub_categories_of(cats, id).len() && 0 <= b < ancestors_of(cats, id).len()
                ==> sub_categories_of(cats, id)[a].id != ancestors_of(cats, id)[b].id,
{
    broadcast use vstd::seq_lib::group_filter_ensures;

    assert forall|x: i64| !(in_subtree(cats, id, x) && is_ancestor(cats, id, x)) by {
        lemma_not_below_and_above(cats, id, x);
    }
    let f = |c: Category| is_descendant_category(cats, id, c);
    let g = |c: Category| is_ancestor_category(cats, id, c);
    assert forall|a: int, b: int|
        0 <= a < sub_categories_of(cats, id).len() && 0 <= b < ancestors_of(cats, id).len()
            implies sub_categories_of(cats, id)[a].id != ancestors_of(cats, id)[b].id by {
        assert(f(sub_categories_of(cats, id)[a]));
        assert(g(ancestors_of(cats, id)[b]));
        lemma_not_below_and_above(cats, id, sub_categories_of(cats, id)[a].id);
    }
}

/// Two resolutions of the same id over the same data agree.
pub proof fn lemma_resolve_deterministic(
    cats: Seq<Category>,
    prods: Seq<Product>,
    id: i64,
    r1: GetCategoryResponse,
    r2: GetCategoryResponse,
)
    requires
        resolves(cats, prods, id, r1),
        resolves(cats, prods, id, r2),
    ensures
        r1.products@ == r2.products@,
        r1.sub_categories@ == r2.sub_categories@,
        r1.parent_categories@ == r2.parent_categories@,
{
}

/// A root category has no ancestors.
pub proof fn lemma_root_has_no_ancestors(cats: Seq<Category>, id: i64)
    requires
        has_category(cats, id),
        cats[category_index(cats, id)].parent_id is None,
    ensures
        ancestors_of(cats, id) == Seq::<Category>::empty(),
{
    broadcast use vstd::seq_lib::group_filter_ensures;

    let f = |c: Category| is_ancestor_category(cats, id, c);
    assert(climb(cats, id, 0) == Some(id));
    assert(climb(cats, id, 1) is None);
    assert forall|a: i64| !is_ancestor(cats, id, a) by {
        if is_ancestor(cats, id, a) {
            let n = choose|n: nat| 1 <= n <= cats.len() && #[trigger] climb(cats, id, n) == Some(a);
            lemma_climb_stops(cats, id, 1, n);
        }
    }
    if ancestors_of(cats, id).len() > 0 {
        assert(f(ancestors_of(cats, id)[0]));
    }
    assert(ancestors_of(cats, id) =~= Seq::<Category>::empty());
}

/// A category that no category names as parent has a descendant closure of
/// itself alone.
pub proof fn lemma_leaf_subtree(cats: Seq<Category>, id: i64)
    requires
        has_category(cats, id),
        forall|i: int| 0 <= i < cats.len() ==> cats[i].parent_id != Some(id),
        categories_ascending(cats),
    ensures
        forall|x: i64| in_subtree(cats, id, x) <==> x == id,
        sub_categories_of(cats, id) == seq![cats[category_index(cats, id)]],
{
    broadcast use vstd::seq_lib::group_filter_ensures;

    let f = |c: Category| is_descendant_category(cats, id, c);
    assert forall|x: i64| in_subtree(cats, id, x) <==> x == id by {
        if x == id {
            lemma_category_in_own_subtree(cats, id);
        }
        if in_subtree(cats, id, x) && x != id {
            let n = choose|n: nat| n <= cats.len() && #[trigger] climb(cats, x, n) == Some(id);
            assert(n > 0);
            let m = (n - 1) as nat;
            let y = climb(cats, x, m)->0;
            assert(parent_link(cats, y) == Some(id));
            let k = category_index(cats, y);
            assert(cats[k].parent_id == Some(id));
        }
    }
    let k = category_index(cats, id);
    assert forall|i: int| 0 <= i < cats.len() && i != k implies !f(cats[i]) by {
        if i < k {
            assert(cats[i].id < cats[k].id);
        } else {
            assert(cats[k].id < cats[i].id);
        }
    }
    lemma_filter_single(cats, f, k);
}

} // verus!
