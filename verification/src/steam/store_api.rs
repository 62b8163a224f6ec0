//! The Steam Store API: request URLs, merging the featured lists, and the checks on an
//! app-details answer.
use vstd::prelude::*;
use crate::text::{concat_str};
use crate::number::{dec, push_dec};
use crate::urlcodec::{url_encode, url_encoded};

verus! {

broadcast use vstd::string::group_string_axioms;

pub const STORE_BASE_URL: &'static str = "https://store.steampowered.com/api";

/// A game shown on the Store's front page.
#[derive(Debug, Clone)]
pub struct FeaturedItem {
    pub id: u32,
    pub name: String,
    pub discounted: bool,
    pub discount_percent: Option<i32>,
    pub original_price: Option<u64>,
    pub final_price: Option<u64>,
    pub currency: Option<String>,
    pub header_image: String,
    pub large_capsule_image: Option<String>,
}

/// An app's Store page.
#[derive(Debug, Clone)]
pub struct AppDetails {
    pub steam_appid: u32,
    pub name: String,
    pub short_description: Option<String>,
    pub header_image: Option<String>,
    pub developers: Option<Vec<String>>,
    pub publishers: Option<Vec<String>>,
    pub is_free: bool,
    pub price_overview: Option<PriceOverview>,
    pub genres: Option<Vec<Genre>>,
    pub release_date: Option<ReleaseDate>,
    pub screenshots: Option<Vec<Screenshot>>,
    pub movies: Option<Vec<Movie>>,
}

#[derive(Debug, Clone)]
pub struct PriceOverview {
    pub initial_formatted: String,
    pub final_formatted: String,
    pub discount_percent: i32,
}

#[derive(Debug, Clone)]
pub struct Genre {
    pub description: String,
}

#[derive(Debug, Clone)]
pub struct ReleaseDate {
    pub coming_soon: bool,
    pub date: String,
}

#[derive(Debug, Clone)]
pub struct Screenshot {
    pub path_thumbnail: String,
    pub path_full: String,
}

#[derive(Debug, Clone)]
pub struct Movie {
    pub mp4: MovieMp4,
}

#[derive(Debug, Clone)]
pub struct MovieMp4 {
    pub quality_480: Option<String>,
    pub max: Option<String>,
}

#[derive(Debug, Clone)]
pub struct SearchItem {
    pub name: String,
    pub id: u32,
    pub logo: Option<String>,
    pub price: Option<String>,
    pub sale_price: Option<String>,
}

#[derive(Debug, Clone)]
pub struct SearchResults {
    pub total_count: u32,
    pub items: Vec<SearchItem>,
}

/// `?cc=<cc>&l=<l>`, the country and language of a Store request.
pub open spec fn locale_query(cc: Seq<char>, l: Seq<char>) -> Seq<char> {
    "?cc="@ + cc + "&l="@ + l
}

/// The featured games of the front page.
pub fn featured_url(cc: &str, l: &str) -> (r: String)
    ensures
        r@ == STORE_BASE_URL@ + "/featured/"@ + locale_query(cc@, l@),
{
    let mut r = String::from_str(STORE_BASE_URL);
    r.append("/featured/");
    r.append("?cc=");
    r.append(cc);
    r.append("&l=");
    r.append(l);
    r
}

/// The featured categories (top sellers, new releases, ...).
pub fn featured_categories_url(cc: &str, l: &str) -> (r: String)
    ensures
        r@ == STORE_BASE_URL@ + "/featuredcategories/"@ + locale_query(cc@, l@),
{
    let mut r = String::from_str(STORE_BASE_URL);
    r.append("/featuredcategories/");
    r.append("?cc=");
    r.append(cc);
    r.append("&l=");
    r.append(l);
    r
}

/// The Store page of one app, with the sections the launcher shows.
pub fn store_app_details_url(app_id: u32, cc: &str, l: &str) -> (r: String)
    ensures
        r@ == STORE_BASE_URL@ + "/appdetails/?appids="@ + dec(app_id as nat) + "&cc="@ + cc@ + "&l="@ + l@
            + "&filters=basic,price_overview,genres,developers,release_date,screenshots,movies"@,
{
    let mut r = String::from_str(STORE_BASE_URL);
    r.append("/appdetails/?appids=");
    push_dec(&mut r, app_id as u64);
    r.append("&cc=");
    r.append(cc);
    r.append("&l=");
    r.append(l);
    r.append("&filters=basic,price_overview,genres,developers,release_date,screenshots,movies");
    r
}

/// A page of search results: `count` results from `page * count`.
pub fn search_url(query: &str, page: u32, count: u32, cc: &str, l: &str) -> (r: String)
    requires
        page * count <= u32::MAX,
    ensures
        r@ == STORE_BASE_URL@ + "/search/results/?term="@ + url_encoded(query@) + "&json=1&cc="@ + cc@ + "&l="@ + l@
            + "&count="@ + dec(count as nat) + "&start="@ + dec((page * count) as nat),
{
    let start = page * count;
    let mut r = String::from_str(STORE_BASE_URL);
    r.append("/search/results/?term=");
    let q = url_encode(query);
    r.append(q.as_str());
    r.append("&json=1&cc=");
    r.append(cc);
    r.append("&l=");
    r.append(l);
    r.append("&count=");
    push_dec(&mut r, count as u64);
    r.append("&start=");
    push_dec(&mut r, start as u64);
    r
}

/// A page of a category filter: `count` results from `page * count`.
pub fn browse_url(filter: &str, page: u32, count: u32, cc: &str, l: &str) -> (r: String)
    requires
        page * count <= u32::MAX,
    ensures
        r@ == STORE_BASE_URL@ + "/search/results/?filter="@ + filter@ + "&json=1&cc="@ + cc@ + "&l="@ + l@
            + "&count="@ + dec(count as nat) + "&start="@ + dec((page * count) as nat),
{
    let start = page * count;
    let mut r = String::from_str(STORE_BASE_URL);
    r.append("/search/results/?filter=");
    r.append(filter);
    r.append("&json=1&cc=");
    r.append(cc);
    r.append("&l=");
    r.append(l);
    r.append("&count=");
    push_dec(&mut r, count as u64);
    r.append("&start=");
    push_dec(&mut r, start as u64);
    r
}

/// The checks on an app-details answer: the app's entry must be there, and its
/// `success` must be `true` (a missing or non-boolean one counts as `false`).
pub fn check_app_details(app_id: u32, entry_present: bool, success: Option<bool>) -> (r: Result<(), String>)
    ensures
        !entry_present ==> (r matches Err(e) && e@ == "No data for app "@ + dec(app_id as nat)),
        entry_present && success != Some(true) ==> (r matches Err(e) && e@ == "App "@ + dec(app_id as nat)
            + " not found or unavailable"@),
        entry_present && success == Some(true) ==> r is Ok,
{
    if !entry_present {
        let mut m = String::from_str("No data for app ");
        push_dec(&mut m, app_id as u64);
        return Err(m);
    }
    let ok = match success {
        Some(b) => b,
        None => false,
    };
    if !ok {
        let mut m = String::from_str("App ");
        push_dec(&mut m, app_id as u64);
        m.append(" not found or unavailable");
        return Err(m);
    }
    Ok(())
}

/// Index in `r` of the first item whose id is at least `id`, searching from `j`.
pub open spec fn id_pos_from(r: Seq<FeaturedItem>, id: u32, j: int) -> int
    decreases r.len() - j,
{
    if j < 0 || j >= r.len() {
        r.len() as int
    } else if r[j].id >= id {
        j
    } else {
        id_pos_from(r, id, j + 1)
    }
}

/// Adds `x` to a list sorted by id unless its id is there already.
pub open spec fn merge_one(r: Seq<FeaturedItem>, x: FeaturedItem) -> Seq<FeaturedItem> {
    let p = id_pos_from(r, x.id, 0);
    if p < r.len() && r[p].id == x.id {
        r
    } else {
        r.insert(p, x)
    }
}

/// The first `n` items merged: sorted by id, keeping the first item of each id.
pub open spec fn featured_merge(items: Seq<FeaturedItem>, n: int) -> Seq<FeaturedItem>
    decreases n,
{
    if n <= 0 {
        seq![]
    } else {
        merge_one(featured_merge(items, n - 1), items[n - 1])
    }
}

/// The front page's games: the large capsules, the featured Windows games and the
/// specials, sorted by id with duplicates dropped (the first of each id is kept, as a
/// stable sort followed by `dedup_by` on the id does).
pub fn merge_featured(large: Vec<FeaturedItem>, featured_win: Vec<FeaturedItem>, specials: Vec<FeaturedItem>) -> (r: Vec<FeaturedItem>)
    ensures
        r@ == featured_merge(large@ + featured_win@ + specials@, (large@ + featured_win@ + specials@).len() as int),
{
    let ghost items = large@ + featured_win@ + specials@;
    let mut all = large;
    let mut w = featured_win;
    let mut s = specials;
    all.append(&mut w);
    all.append(&mut s);
    assert(all@ == items);
    let total = all.len();
    let mut r: Vec<FeaturedItem> = Vec::new();
    let mut k: usize = 0;
    while all.len() > 0
        invariant
            k + all.len() == total == items.len(),
            all@ == items.skip(k as int),
            r@ == featured_merge(items, k as int),
        decreases all.len(),
    {
        let ghost all0 = all@;
        let x = all.remove(0);
        assert(x == items[k as int]);
        let mut j: usize = 0;
        while j < r.len() && r[j].id < x.id
            invariant
                j <= r.len(),
                id_pos_from(r@, x.id, j as int) == id_pos_from(r@, x.id, 0),
            decreases r.len() - j,
        {
            j += 1;
        }
        if !(j < r.len() && r[j].id == x.id) {
            r.insert(j, x);
        }
        proof {
            assert(all@ =~= items.skip(k + 1));
        }
        k += 1;
    }
    assert(all@.len() == 0);
    r
}

/// Index of the first of the first `n` items with this id, or -1.
pub open spec fn first_with_id(items: Seq<FeaturedItem>, id: u32, n: int) -> int
    decreases n,
{
    if n <= 0 {
        -1
    } else {
        let f = first_with_id(items, id, n - 1);
        if f >= 0 {
            f
        } else if items[n - 1].id == id {
            n - 1
        } else {
            -1
        }
    }
}

/// Strictly increasing ids.
pub open spec fn ids_increasing(r: Seq<FeaturedItem>) -> bool {
    forall|a: int, b: int| 0 <= a < b < r.len() ==> #[trigger] r[a].id < #[trigger] r[b].id
}

/// What holds of the merge after `n` items: ids strictly increase; every entry is the
/// first item of its id; every id met has an entry.
pub open spec fn merge_inv(items: Seq<FeaturedItem>, r: Seq<FeaturedItem>, n: int) -> bool {
    &&& ids_increasing(r)
    &&& forall|k: int| 0 <= k < r.len() ==> 0 <= #[trigger] first_with_id(items, r[k].id, n) && r[k] == items[first_with_id(items, r[k].id, n)]
    &&& forall|i: int| 0 <= i < n ==> id_pos_from(r, #[trigger] items[i].id, 0) < r.len() && r[id_pos_from(r, items[i].id, 0)].id == items[i].id
}

proof fn lemma_first_with_id(items: Seq<FeaturedItem>, id: u32, n: int)
    requires
        0 <= n <= items.len(),
    ensures
        first_with_id(items, id, n) >= 0 ==> first_with_id(items, id, n) < n && items[first_with_id(items, id, n)].id == id,
        first_with_id(items, id, n) < 0 ==> forall|i: int| 0 <= i < n ==> #[trigger] items[i].id != id,
        first_with_id(items, id, n) >= 0 ==> forall|i: int| 0 <= i < first_with_id(items, id, n) ==> #[trigger] items[i].id != id,
    decreases n,
{
    if n > 0 {
        lemma_first_with_id(items, id, n - 1);
    }
}

proof fn lemma_id_pos(r: Seq<FeaturedItem>, id: u32, j: int)
    requires
        0 <= j <= r.len(),
    ensures
        j <= id_pos_from(r, id, j) <= r.len(),
        forall|k: int| j <= k < id_pos_from(r, id, j) ==> #[trigger] r[k].id < id,
        id_pos_from(r, id, j) < r.len() ==> r[id_pos_from(r, id, j)].id >= id,
    decreases r.len() - j,
{
    if j < r.len() && r[j].id < id {
        lemma_id_pos(r, id, j + 1);
    }
}

/// In a list of increasing ids, the search finds an entry at its own index.
proof fn lemma_id_pos_exact(r: Seq<FeaturedItem>, q: int)
    requires
        ids_increasing(r),
        0 <= q < r.len(),
    ensures
        id_pos_from(r, r[q].id, 0) == q,
{
    lemma_id_pos(r, r[q].id, 0);
    let p = id_pos_from(r, r[q].id, 0);
    if p < q {
        assert(r[p].id < r[q].id);
    } else if p > q {
        assert(r[q].id < r[q].id);
    }
}

proof fn lemma_merge(items: Seq<FeaturedItem>, n: int)
    requires
        0 <= n <= items.len(),
    ensures
        merge_inv(items, featured_merge(items, n), n),
    decreases n,
{
    if n > 0 {
        lemma_merge(items, n - 1);
        let r = featured_merge(items, n - 1);
        let x = items[n - 1];
        let p = id_pos_from(r, x.id, 0);
        lemma_id_pos(r, x.id, 0);
        let r2 = featured_merge(items, n);
        assert forall|k: int| 0 <= k < r.len() implies first_with_id(items, #[trigger] r[k].id, n) == first_with_id(items, r[k].id, n - 1) by {
        }
        if p < r.len() && r[p].id == x.id {
            assert(r2 == r);
            assert forall|i: int| 0 <= i < n implies id_pos_from(r2, #[trigger] items[i].id, 0) < r2.len() && r2[id_pos_from(r2, items[i].id, 0)].id == items[i].id by {
            }
        } else {
            assert(r2 == r.insert(p, x));
            lemma_first_with_id(items, x.id, n - 1);
            if first_with_id(items, x.id, n - 1) >= 0 {
                let f = first_with_id(items, x.id, n - 1);
                let q = id_pos_from(r, items[f].id, 0);
                assert(r[q].id == x.id);
                if q < p {
                    assert(r[q].id < x.id);
                } else if q > p {
                    assert(r[p].id < r[q].id);
                }
            }
            assert(first_with_id(items, x.id, n) == n - 1);
            assert(ids_increasing(r2)) by {
                assert forall|a: int, b: int| 0 <= a < b < r2.len() implies #[trigger] r2[a].id < #[trigger] r2[b].id by {
                    if b < p {
                        assert(r2[a] == r[a] && r2[b] == r[b]);
                    } else if b == p {
                        assert(r2[a] == r[a]);
                    } else if a > p {
                        assert(r2[a] == r[a - 1] && r2[b] == r[b - 1]);
                    } else if a == p {
                        assert(r2[b] == r[b - 1]);
                        if b - 1 > p {
                            assert(r[p].id < r[b - 1].id);
                        }
                    } else {
                        assert(r2[a] == r[a] && r2[b] == r[b - 1]);
                        if b - 1 > p {
                            assert(r[p].id < r[b - 1].id);
                        }
                    }
                }
            }
            assert forall|k: int| 0 <= k < r2.len() implies 0 <= #[trigger] first_with_id(items, r2[k].id, n) && r2[k] == items[first_with_id(items, r2[k].id, n)] by {
                if k < p {
                    assert(r2[k] == r[k]);
                } else if k > p {
                    assert(r2[k] == r[k - 1]);
                } else {
                    assert(r2[k] == x);
                }
            }
            assert forall|i: int| 0 <= i < n implies id_pos_from(r2, #[trigger] items[i].id, 0) < r2.len() && r2[id_pos_from(r2, items[i].id, 0)].id == items[i].id by {
                if i == n - 1 {
                    lemma_id_pos_exact(r2, p);
                } else {
                    let q = id_pos_from(r, items[i].id, 0);
                    lemma_id_pos(r, items[i].id, 0);
                    assert(q < r.len() && r[q].id == items[i].id);
                    if q < p {
                        assert(r2[q] == r[q]);
                        lemma_id_pos_exact(r2, q);
                    } else {
                        assert(r2[q + 1] == r[q]);
                        lemma_id_pos_exact(r2, q + 1);
                    }
                }
            }
        }
    }
}

/// The merged front page is sorted by strictly increasing id, each entry is the first
/// item of its id among the three lists, and every id of the lists has an entry.
pub proof fn law_featured_merge(items: Seq<FeaturedItem>)
    ensures
        merge_inv(items, featured_merge(items, items.len() as int), items.len() as int),
{
    lemma_merge(items, items.len() as int);
}

} // verus!
