//! The bounded, least-recently-used cache of resolved sticker sets, keyed by
//! API base URL, bot-token fingerprint and set name.

use vstd::prelude::*;
use vstd::string::*;
use sha2::{Digest, Sha256};
use crate::text::{hex_lower, hex_spec, lemma_hex_injective};

verus! {

/// The most sticker sets the cache holds at once.
pub const STICKER_SET_CACHE_CAPACITY: usize = 32;

/// A sticker of a configured set: its emoji and its bot-scoped file ID.
#[derive(Clone)]
pub struct ResolvedSticker {
    pub emoji: String,
    pub file_id: String,
}

impl View for ResolvedSticker {
    /// (emoji, file_id)
    type V = (Seq<char>, Seq<char>);

    open spec fn view(&self) -> (Seq<char>, Seq<char>) {
        (self.emoji@, self.file_id@)
    }
}

pub open spec fn stickers_view(v: Seq<ResolvedSticker>) -> Seq<(Seq<char>, Seq<char>)> {
    v.map_values(|s: ResolvedSticker| s@)
}

/// A copy of a sticker list.
pub fn copy_stickers(v: &Vec<ResolvedSticker>) -> (r: Vec<ResolvedSticker>)
    ensures
        stickers_view(r@) == stickers_view(v@),
{
    let mut r: Vec<ResolvedSticker> = Vec::new();
    let n = v.len();
    let mut i: usize = 0;
    while i < n
        invariant
            n == v@.len(),
            i <= n,
            stickers_view(r@) == stickers_view(v@).take(i as int),
        decreases n - i,
    {
        let ghost old_r = r@;
        let s = ResolvedSticker { emoji: v[i].emoji.clone(), file_id: v[i].file_id.clone() };
        assert(s@ == v@[i as int]@);
        r.push(s);
        assert(r@ == old_r.push(s));
        assert(stickers_view(r@) =~= stickers_view(old_r).push(s@));
        assert(stickers_view(r@) =~= stickers_view(v@).take(i + 1));
        i = i + 1;
    }
    assert(stickers_view(v@).take(n as int) =~= stickers_view(v@));
    r
}

/// What SHA-256 gives for `data`.
pub uninterp spec fn sha256_digest(data: Seq<u8>) -> Seq<u8>;

/// Calls `sha2::Sha256::digest` on `data` and copies out the digest; the
/// contract names the result as a function of the input bytes and states
/// its documented length of 32 bytes, nothing more.
#[verifier::external_body]
fn sha256(data: &[u8]) -> (digest: Vec<u8>)
    ensures
        digest@ == sha256_digest(data@),
        digest@.len() == 32,
{
    Sha256::digest(data).to_vec()
}

/// The fingerprint kept for a bot token: lowercase hex of SHA-256 over its
/// UTF-8 bytes.
pub open spec fn fingerprint_spec(token: Seq<char>) -> Seq<char> {
    hex_spec(sha256_digest(vstd::utf8::encode_utf8(token)))
}

/// Telegram file IDs are scoped to a bot, so cached metadata must never cross
/// bot credentials even when aliases share a set name. The key holds a
/// fingerprint of the token, never the token.
#[derive(Clone)]
pub struct StickerSetCacheKey {
    pub api_base_url: String,
    pub bot_token_fingerprint: String,
    pub set_name: String,
}

impl View for StickerSetCacheKey {
    /// (api_base_url, bot_token_fingerprint, set_name)
    type V = (Seq<char>, Seq<char>, Seq<char>);

    open spec fn view(&self) -> (Seq<char>, Seq<char>, Seq<char>) {
        (self.api_base_url@, self.bot_token_fingerprint@, self.set_name@)
    }
}

/// The key of set `set_name` under a configuration with this base URL and token.
pub open spec fn key_spec(api_base_url: Seq<char>, bot_token: Seq<char>, set_name: Seq<char>) -> (
    Seq<char>,
    Seq<char>,
    Seq<char>,
) {
    (api_base_url, fingerprint_spec(bot_token), set_name)
}

impl StickerSetCacheKey {
    /// The key of `set_name` under `config`.
    pub fn from_config(config: &crate::config::TelegramStickerConfig, set_name: &str) -> (r: Self)
        ensures
            r@ == key_spec(config.api_base_url@, config.bot_token@, set_name@),
            r.bot_token_fingerprint@.len() == 64,
    {
        let digest = sha256(config.bot_token.as_str().as_bytes());
        proof {
            crate::text::lemma_hex_len(digest@);
        }
        StickerSetCacheKey {
            api_base_url: config.api_base_url.clone(),
            bot_token_fingerprint: hex_lower(digest.as_slice()),
            set_name: String::from_str(set_name),
        }
    }

    /// Field-wise equality.
    pub fn same(&self, other: &StickerSetCacheKey) -> (r: bool)
        ensures
            r == (self@ == other@),
    {
        self.api_base_url == other.api_base_url && self.bot_token_fingerprint
            == other.bot_token_fingerprint && self.set_name == other.set_name
    }
}

/// Two configurations share a cache key for a set exactly when their base
/// URLs and set names agree and their tokens have the same SHA-256 digest;
/// so bots whose tokens digest differently never share cached file IDs.
pub proof fn law_key_separates_bots(
    base1: Seq<char>,
    token1: Seq<char>,
    set1: Seq<char>,
    base2: Seq<char>,
    token2: Seq<char>,
    set2: Seq<char>,
)
    ensures
        key_spec(base1, token1, set1) == key_spec(base2, token2, set2) <==> (base1 == base2 && set1
            == set2 && sha256_digest(vstd::utf8::encode_utf8(token1)) == sha256_digest(
            vstd::utf8::encode_utf8(token2),
        )),
{
    if key_spec(base1, token1, set1) == key_spec(base2, token2, set2) {
        lemma_hex_injective(
            sha256_digest(vstd::utf8::encode_utf8(token1)),
            sha256_digest(vstd::utf8::encode_utf8(token2)),
        );
    }
}

/// The view of a cache: its entries from least to most recently used, each a
/// key and its stickers.
pub type KeyView = (Seq<char>, Seq<char>, Seq<char>);

pub type CacheView = Seq<(KeyView, Seq<(Seq<char>, Seq<char>)>)>;

pub open spec fn has_key(c: CacheView, k: KeyView) -> bool {
    exists|i: int| 0 <= i < c.len() && (#[trigger] c[i]).0 == k
}

/// Where `k` stands in `c`.
pub open spec fn key_index(c: CacheView, k: KeyView) -> int {
    choose|i: int| 0 <= i < c.len() && (#[trigger] c[i]).0 == k
}

/// At most the capacity, and no key twice.
pub open spec fn cache_wf(c: CacheView) -> bool {
    &&& c.len() <= STICKER_SET_CACHE_CAPACITY
    &&& forall|i: int, j: int| 0 <= i < j < c.len() ==> (#[trigger] c[i]).0 != (#[trigger] c[j]).0
}

/// The stickers cached under `k`.
pub open spec fn lookup(c: CacheView, k: KeyView) -> Option<Seq<(Seq<char>, Seq<char>)>> {
    if has_key(c, k) {
        Some(c[key_index(c, k)].1)
    } else {
        None
    }
}

/// `k` becomes the most recently used entry; without `k` nothing changes.
pub open spec fn touch_spec(c: CacheView, k: KeyView) -> CacheView {
    if has_key(c, k) {
        c.remove(key_index(c, k)).push(c[key_index(c, k)])
    } else {
        c
    }
}

/// Storing `v` under `k`: a present key is replaced and becomes the most
/// recent; a new key into a full cache first evicts the least recently used.
pub open spec fn insert_spec(c: CacheView, k: KeyView, v: Seq<(Seq<char>, Seq<char>)>) -> CacheView {
    if has_key(c, k) {
        c.remove(key_index(c, k)).push((k, v))
    } else if c.len() == STICKER_SET_CACHE_CAPACITY {
        c.drop_first().push((k, v))
    } else {
        c.push((k, v))
    }
}

/// In a cache without repeated keys, the entry found at `i` is where the key stands.
pub proof fn lemma_key_index(c: CacheView, k: KeyView, i: int)
    requires
        cache_wf(c),
        0 <= i < c.len(),
        c[i].0 == k,
    ensures
        has_key(c, k),
        key_index(c, k) == i,
{
    assert(has_key(c, k));
    let j = key_index(c, k);
    if j != i {
        if j < i {
            assert(c[j].0 != c[i].0);
        } else {
            assert(c[i].0 != c[j].0);
        }
    }
}

/// Moving the entry at `i` to the end keeps the cache well formed.
proof fn lemma_move_to_end_wf(c: CacheView, i: int, e: (KeyView, Seq<(Seq<char>, Seq<char>)>))
    requires
        cache_wf(c),
        0 <= i < c.len(),
        e.0 == c[i].0,
    ensures
        cache_wf(c.remove(i).push(e)),
{
    let d = c.remove(i).push(e);
    assert forall|a: int, b: int| 0 <= a < b < d.len() implies (#[trigger] d[a]).0 != (#[trigger] d[b]).0 by {
        let ia = if a < i { a } else { a + 1 };
        let ib = if b == d.len() - 1 { i } else if b < i { b } else { b + 1 };
        assert(d[a] == c[ia]);
        if b == d.len() - 1 {
            assert(d[b].0 == c[i].0);
        } else {
            assert(d[b] == c[ib]);
        }
        assert(ia != ib);
        if ia < ib {
            assert(c[ia].0 != c[ib].0);
        } else {
            assert(c[ib].0 != c[ia].0);
        }
    }
}

/// Appending a new key, after dropping the oldest entry when full, keeps
/// the cache well formed.
proof fn lemma_insert_new_wf(c: CacheView, k: KeyView, v: Seq<(Seq<char>, Seq<char>)>)
    requires
        cache_wf(c),
        !has_key(c, k),
    ensures
        cache_wf(insert_spec(c, k, v)),
{
    let base = if c.len() == STICKER_SET_CACHE_CAPACITY { c.drop_first() } else { c };
    let d = base.push((k, v));
    assert(d == insert_spec(c, k, v));
    assert forall|a: int, b: int| 0 <= a < b < d.len() implies (#[trigger] d[a]).0 != (#[trigger] d[b]).0 by {
        let off: int = if c.len() == STICKER_SET_CACHE_CAPACITY { 1 } else { 0 };
        assert(d[a] == c[a + off]);
        if b == d.len() - 1 {
            assert(d[b].0 == k);
            if c[a + off].0 == k {
                assert(has_key(c, k));
            }
        } else {
            assert(d[b] == c[b + off]);
            assert(c[a + off].0 != c[b + off].0);
        }
    }
}

/// Storing and refreshing keep a cache within its capacity and free of
/// repeated keys.
pub proof fn law_cache_stays_bounded(c: CacheView, k: KeyView, v: Seq<(Seq<char>, Seq<char>)>)
    requires
        cache_wf(c),
    ensures
        cache_wf(insert_spec(c, k, v)),
        cache_wf(touch_spec(c, k)),
        insert_spec(c, k, v).len() <= STICKER_SET_CACHE_CAPACITY,
{
    if has_key(c, k) {
        let i = key_index(c, k);
        lemma_move_to_end_wf(c, i, (k, v));
        lemma_move_to_end_wf(c, i, c[i]);
    } else {
        lemma_insert_new_wf(c, k, v);
    }
}

/// A well-formed cache finds under `k` what stands beside `k` at `i`.
pub proof fn lemma_lookup_at(c: CacheView, k: KeyView, i: int)
    requires
        cache_wf(c),
        0 <= i < c.len(),
        c[i].0 == k,
    ensures
        lookup(c, k) == Some(c[i].1),
{
    lemma_key_index(c, k, i);
}

/// What was just stored under a key is what a lookup of that key finds.
pub proof fn law_read_after_write(c: CacheView, k: KeyView, v: Seq<(Seq<char>, Seq<char>)>)
    requires
        cache_wf(c),
    ensures
        lookup(insert_spec(c, k, v), k) == Some(v),
{
    law_cache_stays_bounded(c, k, v);
    let d = insert_spec(c, k, v);
    lemma_lookup_at(d, k, d.len() - 1);
}

/// Storing under `k` leaves every other key's stickers as they were, except
/// the least recently used entry that a new key evicts from a full cache.
pub proof fn law_insert_keeps_others(
    c: CacheView,
    k: KeyView,
    v: Seq<(Seq<char>, Seq<char>)>,
    k2: KeyView,
)
    requires
        cache_wf(c),
        k2 != k,
        !(!has_key(c, k) && c.len() == STICKER_SET_CACHE_CAPACITY && c[0].0 == k2),
    ensures
        lookup(insert_spec(c, k, v), k2) == lookup(c, k2),
{
    law_cache_stays_bounded(c, k, v);
    let d = insert_spec(c, k, v);
    if has_key(c, k2) {
        let i = key_index(c, k2);
        let j = if has_key(c, k) {
            let p = key_index(c, k);
            assert(i != p);
            if i < p { i } else { i - 1 }
        } else if c.len() == STICKER_SET_CACHE_CAPACITY {
            assert(i != 0);
            i - 1
        } else {
            i
        };
        assert(d[j] == c[i]);
        lemma_lookup_at(d, k2, j);
    } else {
        assert forall|a: int| 0 <= a < d.len() implies (#[trigger] d[a]).0 != k2 by {
            if a < d.len() - 1 {
                if has_key(c, k) {
                    let p = key_index(c, k);
                    let ia = if a < p { a } else { a + 1 };
                    assert(d[a] == c[ia]);
                } else if c.len() == STICKER_SET_CACHE_CAPACITY {
                    assert(d[a] == c[a + 1]);
                } else {
                    assert(d[a] == c[a]);
                }
            }
        }
    }
}

/// A new key stored into a full cache evicts exactly the least recently
/// used entry, and the cache stays at its capacity.
pub proof fn law_full_insert_evicts_least_recent(
    c: CacheView,
    k: KeyView,
    v: Seq<(Seq<char>, Seq<char>)>,
)
    requires
        cache_wf(c),
        !has_key(c, k),
        c.len() == STICKER_SET_CACHE_CAPACITY,
    ensures
        !has_key(insert_spec(c, k, v), c[0].0),
        insert_spec(c, k, v).len() == STICKER_SET_CACHE_CAPACITY,
{
    let d = insert_spec(c, k, v);
    assert forall|a: int| 0 <= a < d.len() implies (#[trigger] d[a]).0 != c[0].0 by {
        if a < d.len() - 1 {
            assert(d[a] == c[a + 1]);
            assert(c[0].0 != c[a + 1].0);
        } else {
            assert(d[a].0 == k);
            if k == c[0].0 {
                assert(has_key(c, k));
            }
        }
    }
}

/// A hit makes the key the most recently used and changes no key's stickers.
pub proof fn law_get_refreshes_recency(c: CacheView, k: KeyView, k2: KeyView)
    requires
        cache_wf(c),
        has_key(c, k),
    ensures
        touch_spec(c, k).len() == c.len(),
        touch_spec(c, k).last().0 == k,
        lookup(touch_spec(c, k), k2) == lookup(c, k2),
{
    let p = key_index(c, k);
    let d = touch_spec(c, k);
    assert(d == c.remove(p).push(c[p]));
    assert(d.len() == c.len());
    lemma_move_to_end_wf(c, p, c[p]);
    if has_key(c, k2) {
        let i = key_index(c, k2);
        let j = if i == p { d.len() - 1 } else if i < p { i } else { i - 1 };
        assert(d[j] == c[i]);
        lemma_lookup_at(d, k2, j);
        lemma_lookup_at(c, k2, i);
    } else {
        assert forall|a: int| 0 <= a < d.len() implies (#[trigger] d[a]).0 != k2 by {
            if a < d.len() - 1 {
                let ia = if a < p { a } else { a + 1 };
                assert(d[a] == c[ia]);
            }
        }
    }
}

/// A set just looked up survives the next insertion of another key, even
/// into a full cache.
pub proof fn law_recently_used_survives_insert(
    c: CacheView,
    k: KeyView,
    k2: KeyView,
    v: Seq<(Seq<char>, Seq<char>)>,
)
    requires
        cache_wf(c),
        has_key(c, k),
        c.len() >= 2,
        k2 != k,
    ensures
        has_key(insert_spec(touch_spec(c, k), k2, v), k),
{
    let t = touch_spec(c, k);
    law_cache_stays_bounded(c, k, v);
    law_get_refreshes_recency(c, k, k);
    assert(t[t.len() - 1].0 == k);
    assert(!(!has_key(t, k2) && t.len() == STICKER_SET_CACHE_CAPACITY && t[0].0 == k)) by {
        if t[0].0 == k {
            assert(t[0].0 != t[t.len() - 1].0);
        }
    }
    law_insert_keeps_others(t, k2, v, k);
    lemma_lookup_at(t, k, t.len() - 1);
}

/// One use of the cache: a lookup (`get`) or a store (`insert`).
pub enum CacheOp {
    Get(KeyView),
    Insert(KeyView, Seq<(Seq<char>, Seq<char>)>),
}

pub open spec fn op_key(op: CacheOp) -> KeyView {
    match op {
        CacheOp::Get(k) => k,
        CacheOp::Insert(k, _) => k,
    }
}

/// The cache after one use, as `get` and `insert` change it.
pub open spec fn apply_op(c: CacheView, op: CacheOp) -> CacheView {
    match op {
        CacheOp::Get(k) => touch_spec(c, k),
        CacheOp::Insert(k, v) => insert_spec(c, k, v),
    }
}

/// The cache after a sequence of uses, first to last.
pub open spec fn apply_ops(c: CacheView, ops: Seq<CacheOp>) -> CacheView
    decreases ops.len(),
{
    if ops.len() == 0 {
        c
    } else {
        apply_ops(apply_op(c, ops[0]), ops.drop_first())
    }
}

/// The keys other than `k` that `ops` use.
pub open spec fn other_keys(ops: Seq<CacheOp>, k: KeyView) -> Set<KeyView> {
    ops.map_values(|op: CacheOp| op_key(op)).to_set().remove(k)
}

/// The induction behind `law_recent_set_survives`: every entry more recent
/// than `k` has a key of `t`, every use is of `k` or a key of `t`, and `t`
/// has at most one key fewer than the capacity.
proof fn lemma_survives(c: CacheView, k: KeyView, ops: Seq<CacheOp>, t: Set<KeyView>)
    requires
        cache_wf(c),
        has_key(c, k),
        t.finite(),
        t.len() < STICKER_SET_CACHE_CAPACITY,
        forall|j: int| key_index(c, k) < j < c.len() ==> t.contains(#[trigger] c[j].0),
        forall|i: int| 0 <= i < ops.len() ==> op_key(#[trigger] ops[i]) == k || t.contains(op_key(ops[i])),
        forall|i: int| 0 <= i < ops.len() ==> !((#[trigger] ops[i]) is Insert && op_key(ops[i]) == k),
    ensures
        has_key(apply_ops(c, ops), k),
        lookup(apply_ops(c, ops), k) == lookup(c, k),
    decreases ops.len(),
{
    if ops.len() > 0 {
        let op = ops[0];
        let x = op_key(op);
        let d = apply_op(c, op);
        let i = key_index(c, k);
        law_cache_stays_bounded(c, x, match op { CacheOp::Insert(_, v) => v, CacheOp::Get(_) => Seq::empty() });
        assert(cache_wf(d));
        if x == k {
            assert(op is Get);
            law_get_refreshes_recency(c, k, k);
            lemma_lookup_at(d, k, d.len() - 1);
            lemma_key_index(d, k, d.len() - 1);
        } else {
            assert(t.contains(x));
            law_get_refreshes_recency_or_absent(c, x, k);
            // Where `k` stands after the use, and that every newer entry has a key of `t`.
            if op is Get && !has_key(c, x) {
                assert(d == c);
            } else if has_key(c, x) {
                let p = key_index(c, x);
                assert(p != i);
                let e = d[d.len() - 1];
                assert(e.0 == x);
                let ni = if p < i { i - 1 } else { i };
                assert(d[ni] == c[i]);
                lemma_key_index(d, k, ni);
                assert forall|j: int| ni < j < d.len() implies t.contains(#[trigger] d[j].0) by {
                    if j < d.len() - 1 {
                        let cj = if j < p { j } else { j + 1 };
                        assert(d[j] == c[cj]);
                        assert(cj > i);
                    }
                }
            } else {
                // A new key is stored.
                if c.len() == STICKER_SET_CACHE_CAPACITY {
                    if i == 0 {
                        // Then every other entry is newer than `k`, so with `x` there
                        // would be as many keys in `t` as the capacity.
                        let w = c.drop_first().map_values(|en: (KeyView, Seq<(Seq<char>, Seq<char>)>)| en.0).push(x);
                        assert forall|a: int, b: int| 0 <= a < w.len() && 0 <= b < w.len() && a != b implies w[a] != w[b] by {
                            if a < w.len() - 1 && b < w.len() - 1 {
                                assert(w[a] == c[a + 1].0 && w[b] == c[b + 1].0);
                                if a < b {
                                    assert(c[a + 1].0 != c[b + 1].0);
                                } else {
                                    assert(c[b + 1].0 != c[a + 1].0);
                                }
                            } else if a == w.len() - 1 {
                                assert(w[b] == c[b + 1].0);
                                if w[b] == x {
                                    assert(has_key(c, x));
                                }
                            } else {
                                assert(w[a] == c[a + 1].0);
                                if w[a] == x {
                                    assert(has_key(c, x));
                                }
                            }
                        }
                        assert(w.no_duplicates());
                        w.unique_seq_to_set();
                        assert forall|y: KeyView| w.to_set().contains(y) implies t.contains(y) by {
                            let a = choose|a: int| 0 <= a < w.len() && w[a] == y;
                            if a < w.len() - 1 {
                                assert(w[a] == c[a + 1].0);
                            }
                        }
                        vstd::set_lib::lemma_len_subset(w.to_set(), t);
                        assert(false);
                    }
                    let ni = i - 1;
                    assert(d[ni] == c[i]);
                    lemma_key_index(d, k, ni);
                    assert forall|j: int| ni < j < d.len() implies t.contains(#[trigger] d[j].0) by {
                        if j < d.len() - 1 {
                            assert(d[j] == c[j + 1]);
                        } else {
                            assert(d[j].0 == x);
                        }
                    }
                } else {
                    assert(d[i] == c[i]);
                    lemma_key_index(d, k, i);
                    assert forall|j: int| i < j < d.len() implies t.contains(#[trigger] d[j].0) by {
                        if j < d.len() - 1 {
                            assert(d[j] == c[j]);
                        } else {
                            assert(d[j].0 == x);
                        }
                    }
                }
            }
            if op is Insert {
                let v = op->Insert_1;
                if !has_key(c, x) && c.len() == STICKER_SET_CACHE_CAPACITY {
                    assert(c[0].0 != k) by {
                        if c[0].0 == k {
                            lemma_key_index(c, k, 0);
                        }
                    }
                }
                law_insert_keeps_others(c, x, v, k);
            }
        }
        let rest = ops.drop_first();
        assert forall|q: int| 0 <= q < rest.len() implies op_key(#[trigger] rest[q]) == k || t.contains(op_key(rest[q])) by {
            assert(rest[q] == ops[q + 1]);
        }
        assert forall|q: int| 0 <= q < rest.len() implies !((#[trigger] rest[q]) is Insert && op_key(rest[q]) == k) by {
            assert(rest[q] == ops[q + 1]);
        }
        lemma_survives(d, k, rest, t);
    }
}

/// A lookup leaves every key's stickers as they were, found or not.
proof fn law_get_refreshes_recency_or_absent(c: CacheView, x: KeyView, k: KeyView)
    requires
        cache_wf(c),
    ensures
        lookup(touch_spec(c, x), k) == lookup(c, k),
{
    if has_key(c, x) {
        law_get_refreshes_recency(c, x, k);
    }
}

/// The set used last survives any sequence of later uses that stores no new
/// stickers under it and uses at most 31 other keys (one fewer than the
/// capacity), and its stickers are still those cached.
pub proof fn law_recent_set_survives(c: CacheView, k: KeyView, ops: Seq<CacheOp>)
    requires
        cache_wf(c),
        c.len() > 0,
        c.last().0 == k,
        forall|i: int| 0 <= i < ops.len() ==> !((#[trigger] ops[i]) is Insert && op_key(ops[i]) == k),
        other_keys(ops, k).len() < STICKER_SET_CACHE_CAPACITY,
    ensures
        has_key(apply_ops(c, ops), k),
        lookup(apply_ops(c, ops), k) == lookup(c, k),
{
    let t = other_keys(ops, k);
    lemma_key_index(c, k, c.len() - 1);
    assert forall|i: int| 0 <= i < ops.len() implies op_key(#[trigger] ops[i]) == k || t.contains(op_key(ops[i])) by {
        let keys = ops.map_values(|op: CacheOp| op_key(op));
        assert(keys[i] == op_key(ops[i]));
        assert(keys.to_set().contains(keys[i]));
    }
    lemma_survives(c, k, ops, t);
}

struct CacheEntry {
    key: StickerSetCacheKey,
    stickers: Vec<ResolvedSticker>,
}

impl View for CacheEntry {
    type V = (KeyView, Seq<(Seq<char>, Seq<char>)>);

    closed spec fn view(&self) -> (KeyView, Seq<(Seq<char>, Seq<char>)>) {
        (self.key@, stickers_view(self.stickers@))
    }
}

/// The sticker sets fetched so far, least recently used first.
pub struct StickerSetCache {
    entries: Vec<CacheEntry>,
}

impl View for StickerSetCache {
    type V = CacheView;

    closed spec fn view(&self) -> CacheView {
        self.entries@.map_values(|e: CacheEntry| e@)
    }
}

impl StickerSetCache {
    #[verifier::type_invariant]
    spec fn inv(self) -> bool {
        cache_wf(self@)
    }

    /// An empty cache.
    pub fn new() -> (r: Self)
        ensures
            r@ == Seq::<(KeyView, Seq<(Seq<char>, Seq<char>)>)>::empty(),
    {
        let r = StickerSetCache { entries: Vec::new() };
        assert(r@ =~= Seq::<(KeyView, Seq<(Seq<char>, Seq<char>)>)>::empty());
        r
    }

    /// The number of cached sets.
    pub fn len(&self) -> (r: usize)
        ensures
            r == self@.len(),
            cache_wf(self@),
    {
        proof {
            use_type_invariant(self);
        }
        self.entries.len()
    }

    /// Where `key` stands, if it is cached.
    fn position(&self, key: &StickerSetCacheKey) -> (r: Option<usize>)
        ensures
            cache_wf(self@),
            r is None <==> !has_key(self@, key@),
            r matches Some(i) ==> i < self@.len() && key_index(self@, key@) == i && self@[i as int].0 == key@,
    {
        proof {
            use_type_invariant(self);
        }
        let n = self.entries.len();
        let mut i: usize = 0;
        while i < n
            invariant
                n == self.entries@.len(),
                self@ == self.entries@.map_values(|e: CacheEntry| e@),
                i <= n,
                cache_wf(self@),
                forall|j: int| 0 <= j < i ==> (#[trigger] self@[j]).0 != key@,
            decreases n - i,
        {
            if self.entries[i].key.same(key) {
                proof {
                    lemma_key_index(self@, key@, i as int);
                }
                return Some(i);
            }
            i = i + 1;
        }
        None
    }

    /// Whether `key` is cached.
    pub fn contains_key(&self, key: &StickerSetCacheKey) -> (r: bool)
        ensures
            r == has_key(self@, key@),
    {
        self.position(key).is_some()
    }

    /// Makes the entry at `i` the most recently used.
    fn touch_at(&mut self, i: usize)
        requires
            i < old(self)@.len(),
        ensures
            final(self)@ == old(self)@.remove(i as int).push(old(self)@[i as int]),
    {
        proof {
            use_type_invariant(&*self);
        }
        let ghost c = self@;
        let mut entries: Vec<CacheEntry> = Vec::new();
        std::mem::swap(&mut entries, &mut self.entries);
        assert(entries@.map_values(|e: CacheEntry| e@) == c);
        let e = entries.remove(i);
        entries.push(e);
        assert(entries@.map_values(|e: CacheEntry| e@) =~= c.remove(i as int).push(c[i as int]));
        proof {
            lemma_move_to_end_wf(c, i as int, c[i as int]);
        }
        self.entries = entries;
    }

    /// Makes the cached `key` the most recently used set. Only a cached key
    /// is admitted: the tool touches a key only after finding it, and
    /// touching an absent key would put into the recency order a key with no
    /// entry, which this cache's single ordered list cannot hold.
    pub fn touch(&mut self, key: &StickerSetCacheKey)
        requires
            has_key(old(self)@, key@),
        ensures
            final(self)@ == touch_spec(old(self)@, key@),
            final(self)@.last().0 == key@,
            cache_wf(final(self)@),
    {
        proof {
            use_type_invariant(&*self);
            law_get_refreshes_recency(self@, key@, key@);
        }
        if let Some(i) = self.position(key) {
            self.touch_at(i);
        }
        proof {
            use_type_invariant(&*self);
        }
    }

    /// The stickers cached under `key`, which becomes the most recently used;
    /// `None`, with the cache unchanged, when the key is absent.
    pub fn get(&mut self, key: &StickerSetCacheKey) -> (r: Option<Vec<ResolvedSticker>>)
        ensures
            r is None <==> lookup(old(self)@, key@) is None,
            r matches Some(v) ==> lookup(old(self)@, key@) == Some(stickers_view(v@)),
            final(self)@ == touch_spec(old(self)@, key@),
            cache_wf(final(self)@),
    {
        proof {
            use_type_invariant(&*self);
        }
        match self.position(key) {
            None => None,
            Some(i) => {
                let stickers = copy_stickers(&self.entries[i].stickers);
                assert(self@[i as int].1 == stickers_view(self.entries@[i as int].stickers@));
                self.touch(key);
                proof {
                    use_type_invariant(&*self);
                }
                Some(stickers)
            },
        }
    }

    /// Stores `stickers` under `key` as the most recently used entry; a new
    /// key into a full cache first evicts the least recently used set.
    pub fn insert(&mut self, key: StickerSetCacheKey, stickers: Vec<ResolvedSticker>)
        ensures
            final(self)@ == insert_spec(old(self)@, key@, stickers_view(stickers@)),
            cache_wf(final(self)@),
    {
        proof {
            use_type_invariant(&*self);
        }
        let ghost c = self@;
        let ghost k = key@;
        let ghost v = stickers_view(stickers@);
        let pos = self.position(&key);
        let mut entries: Vec<CacheEntry> = Vec::new();
        std::mem::swap(&mut entries, &mut self.entries);
        assert(entries@.map_values(|e: CacheEntry| e@) == c);
        match pos {
            Some(i) => {
                entries.remove(i);
                entries.push(CacheEntry { key, stickers });
                assert(entries@.map_values(|e: CacheEntry| e@) =~= c.remove(i as int).push((k, v)));
                proof {
                    lemma_move_to_end_wf(c, i as int, (k, v));
                }
            },
            None => {
                if entries.len() == STICKER_SET_CACHE_CAPACITY {
                    entries.remove(0);
                    assert(entries@.map_values(|e: CacheEntry| e@) =~= c.drop_first());
                }
                entries.push(CacheEntry { key, stickers });
                assert(entries@.map_values(|e: CacheEntry| e@) =~= insert_spec(c, k, v));
                proof {
                    lemma_insert_new_wf(c, k, v);
                }
            },
        }
        self.entries = entries;
        proof {
            use_type_invariant(&*self);
        }
    }
}

impl Default for StickerSetCache {
    fn default() -> (r: Self)
        ensures
            r@ == Seq::<(KeyView, Seq<(Seq<char>, Seq<char>)>)>::empty(),
    {
        StickerSetCache::new()
    }
}

} // verus!
