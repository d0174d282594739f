//! The assets already published on Poly Haven.
use vstd::prelude::*;
use crate::text::{chars_of, seq_eq};

verus! {

/// The slugs of every published asset.
#[derive(Debug, Clone)]
pub struct PublishedAssets {
    pub slugs: Vec<String>,
}

/// Name of the cache file the published slugs are kept in between runs.
pub fn cache_name() -> (r: &'static str)
    ensures
        r@ == "polyhaven_published"@,
{
    "polyhaven_published"
}

impl Default for PublishedAssets {
    fn default() -> (r: PublishedAssets)
        ensures
            r.slugs@.len() == 0,
    {
        PublishedAssets::new()
    }
}

pub open spec fn slug_texts(v: Seq<String>) -> Seq<Seq<char>> {
    v.map_values(|s: String| s@)
}

impl PublishedAssets {
    /// No published asset known.
    pub fn new() -> (r: PublishedAssets)
        ensures
            r.slugs@.len() == 0,
    {
        PublishedAssets { slugs: Vec::new() }
    }

    /// Whether an asset with this slug has been published.
    pub fn contains(&self, slug: &str) -> (r: bool)
        ensures
            r == slug_texts(self.slugs@).contains(slug@),
    {
        let s = chars_of(slug);
        let mut i: usize = 0;
        while i < self.slugs.len()
            invariant
                i <= self.slugs@.len(),
                s@ == slug@,
                forall|k: int| 0 <= k < i ==> #[trigger] self.slugs@[k]@ != slug@,
            decreases self.slugs@.len() - i,
        {
            let t = chars_of(self.slugs[i].as_str());
            if seq_eq(&t, &s) {
                assert(slug_texts(self.slugs@)[i as int] == slug@);
                return true;
            }
            i += 1;
        }
        proof {
            if slug_texts(self.slugs@).contains(slug@) {
                let k = choose|k: int| 0 <= k < slug_texts(self.slugs@).len() && slug_texts(self.slugs@)[k] == slug@;
                assert(self.slugs@[k]@ == slug@);
            }
        }
        false
    }
}

// ---------------------------------------------------------------------------------------
// Reading the public asset API's answer
// ---------------------------------------------------------------------------------------

/// The top level of the public asset API's JSON answer, as far as the slugs go.
pub enum ApiTop {
    /// An object: its keys, in the map's order.
    Keys(Vec<String>),
    /// An array: for each item, the text of its `slug` member if it has a text one.
    Items(Vec<Option<String>>),
    /// Any other JSON value.
    Other,
}

pub enum ApiTopView {
    Keys(Seq<Seq<char>>),
    Items(Seq<Option<Seq<char>>>),
    Other,
}

pub open spec fn opt_text_view(o: Option<String>) -> Option<Seq<char>> {
    match o {
        Some(s) => Some(s@),
        None => None,
    }
}

pub open spec fn top_view(t: ApiTop) -> ApiTopView {
    match t {
        ApiTop::Keys(k) => ApiTopView::Keys(slug_texts(k@)),
        ApiTop::Items(i) => ApiTopView::Items(i@.map_values(|o: Option<String>| opt_text_view(o))),
        ApiTop::Other => ApiTopView::Other,
    }
}

pub open spec fn opt_top_view(r: Option<ApiTop>) -> Option<ApiTopView> {
    match r {
        Some(t) => Some(top_view(t)),
        None => None,
    }
}

/// What `serde_json::from_slice::<serde_json::Value>` makes of the API's answer, read as
/// an `ApiTop`; nothing when the bytes are not JSON.
pub uninterp spec fn api_top_of(body: Seq<u8>) -> Option<ApiTopView>;

/// `serde_json::from_slice::<serde_json::Value>`, with the top-level value converted to
/// an `ApiTop`.
#[verifier::external_body]
fn parse_api_top(body: &[u8]) -> (r: Option<ApiTop>)
    ensures
        opt_top_view(r) == api_top_of(body@),
{
    match serde_json::from_slice::<serde_json::Value>(body).ok()? {
        serde_json::Value::Object(map) => Some(ApiTop::Keys(map.into_iter().map(|(k, _)| k).collect())),
        serde_json::Value::Array(items) => Some(ApiTop::Items(
            items.iter().map(|i| i.get("slug").and_then(|s| s.as_str()).map(str::to_string)).collect(),
        )),
        _ => Some(ApiTop::Other),
    }
}

/// The slug texts present among the items, in order.
pub open spec fn present(items: Seq<Option<Seq<char>>>) -> Seq<Seq<char>>
    decreases items.len(),
{
    if items.len() == 0 {
        Seq::empty()
    } else {
        match items.last() {
            Some(t) => present(items.drop_last()).push(t),
            None => present(items.drop_last()),
        }
    }
}

/// The published slugs an answer names: an object's keys, or the slug of each array item
/// that has one; none for anything else.
pub open spec fn published_spec(t: ApiTopView) -> Seq<Seq<char>> {
    match t {
        ApiTopView::Keys(k) => k,
        ApiTopView::Items(i) => present(i),
        ApiTopView::Other => Seq::empty(),
    }
}

pub fn published_from(top: &ApiTop) -> (r: PublishedAssets)
    ensures
        slug_texts(r.slugs@) == published_spec(top_view(*top)),
{
    let mut slugs: Vec<String> = Vec::new();
    match top {
        ApiTop::Keys(keys) => {
            let mut i: usize = 0;
            while i < keys.len()
                invariant
                    i <= keys.len(),
                    slug_texts(slugs@) == slug_texts(keys@.take(i as int)),
                decreases keys.len() - i,
            {
                let ghost prev = slugs@;
                let t = crate::text::owned(keys[i].as_str());
                slugs.push(t);
                assert(slug_texts(slugs@) =~= slug_texts(prev).push(t@));
                assert(keys@.take(i + 1) =~= keys@.take(i as int).push(keys@[i as int]));
                assert(slug_texts(keys@.take(i + 1)) =~= slug_texts(keys@.take(i as int)).push(keys@[i as int]@));
                i += 1;
            }
            assert(keys@.take(keys@.len() as int) =~= keys@);
        },
        ApiTop::Items(items) => {
            let ghost iv = items@.map_values(|o: Option<String>| opt_text_view(o));
            let mut i: usize = 0;
            while i < items.len()
                invariant
                    i <= items.len(),
                    iv == items@.map_values(|o: Option<String>| opt_text_view(o)),
                    slug_texts(slugs@) == present(iv.take(i as int)),
                decreases items.len() - i,
            {
                assert(iv.take(i + 1).drop_last() =~= iv.take(i as int));
                let ghost prev = slugs@;
                match &items[i] {
                    Some(t) => {
                        let u = crate::text::owned(t.as_str());
                        slugs.push(u);
                        assert(slug_texts(slugs@) =~= slug_texts(prev).push(u@));
                    },
                    None => {},
                }
                i += 1;
            }
            assert(iv.take(iv.len() as int) =~= iv);
        },
        ApiTop::Other => {
            assert(slug_texts(slugs@) =~= Seq::<Seq<char>>::empty());
        },
    }
    PublishedAssets { slugs }
}

/// The published assets named by the public asset API's answer; nothing when the answer
/// is not JSON.
pub fn published_slugs(body: &[u8]) -> (r: Option<PublishedAssets>)
    ensures
        match api_top_of(body@) {
            None => r is None,
            Some(t) => r matches Some(p) && slug_texts(p.slugs@) == published_spec(t),
        },
{
    match parse_api_top(body) {
        Some(top) => Some(published_from(&top)),
        None => None,
    }
}

} // verus!
