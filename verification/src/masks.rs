//! Attention masks: which keys a query sees.

use vstd::prelude::*;

verus! {

/// Whether the query at position `query` sees the key at position `key`: not
/// one that comes after it and, under a sliding window, only the last `window`.
pub open spec fn visible(query: int, key: int, window: Option<i32>) -> bool {
    &&& key <= query
    &&& match window {
        Some(w) => key > query - w,
        None => true,
    }
}

/// Whether `rows` says for each of `seq_len` queries which of the `offset` cached
/// keys and of the `seq_len` new ones it sees.
pub open spec fn is_mask(
    rows: Seq<Vec<bool>>,
    seq_len: int,
    offset: int,
    window: Option<i32>,
) -> bool {
    &&& rows.len() == seq_len
    &&& forall|q: int|
        0 <= q < seq_len ==> (#[trigger] rows[q])@.len() == offset + seq_len
    &&& forall|q: int, k: int|
        0 <= q < seq_len && 0 <= k < offset + seq_len ==> #[trigger] rows[q]@[k] == visible(
            offset + q,
            k,
            window,
        )
}

/// Whether no mask is needed: a single query, behind which no key falls out of
/// the window.
pub open spec fn unmasked(seq_len: int, offset: int, window: Option<i32>) -> bool {
    seq_len == 1 && match window {
        Some(w) => offset + seq_len <= w,
        None => true,
    }
}

fn mask_row(query: i32, keys: i32, window: Option<i32>) -> (row: Vec<bool>)
    requires
        0 <= query,
        0 <= keys,
    ensures
        row@.len() == keys,
        forall|k: int| 0 <= k < keys ==> row@[k] == visible(query as int, k, window),
{
    let mut row: Vec<bool> = Vec::new();
    let mut k: i32 = 0;
    while k < keys
        invariant
            0 <= k <= keys,
            row@.len() == k,
            forall|j: int| 0 <= j < k ==> row@[j] == visible(query as int, j, window),
        decreases keys - k,
    {
        let causal = k <= query;
        let in_window = match window {
            Some(w) => (k as i64) > query as i64 - w as i64,
            None => true,
        };
        row.push(causal && in_window);
        k = k + 1;
    }
    row
}

fn mask_rows(seq_len: i32, offset: i32, window: Option<i32>) -> (rows: Vec<Vec<bool>>)
    requires
        0 <= seq_len,
        0 <= offset,
        offset + seq_len <= i32::MAX,
    ensures
        is_mask(rows@, seq_len as int, offset as int, window),
{
    let mut rows: Vec<Vec<bool>> = Vec::new();
    let mut q: i32 = 0;
    while q < seq_len
        invariant
            0 <= q <= seq_len,
            0 <= offset,
            offset + seq_len <= i32::MAX,
            rows@.len() == q,
            forall|p: int| 0 <= p < q ==> (#[trigger] rows@[p])@.len() == offset + seq_len,
            forall|p: int, k: int|
                0 <= p < q && 0 <= k < offset + seq_len ==> #[trigger] rows@[p]@[k] == visible(
                    offset + p,
                    k,
                    window,
                ),
        decreases seq_len - q,
    {
        rows.push(mask_row(offset + q, offset + seq_len, window));
        q = q + 1;
    }
    rows
}

/// The mask for `seq_len` new tokens behind `offset` cached ones, or none where
/// none is needed.
pub fn attention_mask(seq_len: i32, offset: i32, window: Option<i32>) -> (r: Option<
    Vec<Vec<bool>>,
>)
    requires
        0 <= seq_len,
        0 <= offset,
        offset + seq_len <= i32::MAX,
    ensures
        match r {
            None => unmasked(seq_len as int, offset as int, window),
            Some(rows) => !unmasked(seq_len as int, offset as int, window) && is_mask(
                rows@,
                seq_len as int,
                offset as int,
                window,
            ),
        },
{
    let fits = match window {
        Some(w) => offset + seq_len <= w,
        None => true,
    };
    if seq_len == 1 && fits {
        return None;
    }
    Some(mask_rows(seq_len, offset, window))
}

/// The mask for `seq_len` tokens with nothing before them.
pub fn causal_mask(seq_len: i32) -> (rows: Vec<Vec<bool>>)
    requires
        0 <= seq_len,
    ensures
        is_mask(rows@, seq_len as int, 0, None),
{
    mask_rows(seq_len, 0, None)
}

/// Where the mask is left out, it would hide nothing.
pub proof fn law_no_mask_hides_nothing(seq_len: int, offset: int, window: Option<i32>)
    requires
        0 <= offset,
        unmasked(seq_len, offset, window),
    ensures
        forall|q: int, k: int|
            0 <= q < seq_len && 0 <= k < offset + seq_len ==> #[trigger] visible(
                offset + q,
                k,
                window,
            ),
{
}

/// Without a window, every new token sees all cached ones, and of the new ones
/// itself and those before it.
pub proof fn law_new_tokens_see_the_cache_and_a_triangle(seq_len: int, offset: int)
    requires
        0 <= offset,
    ensures
        forall|q: int, k: int|
            0 <= q < seq_len && 0 <= k < offset ==> #[trigger] visible(offset + q, k, None),
        forall|q: int, j: int|
            0 <= q < seq_len && 0 <= j < seq_len ==> (#[trigger] visible(
                offset + q,
                offset + j,
                None,
            ) <==> j <= q),
{
}

/// Every token sees itself, under any window.
pub proof fn law_every_token_sees_itself(query: int, window: Option<i32>)
    requires
        window matches Some(w) ==> w >= 1,
    ensures
        visible(query, query, window),
{
}

/// Within its first `w` positions a window of `w` hides nothing that a mask
/// without a window shows.
pub proof fn law_a_window_shows_a_short_text_whole(query: int, key: int, w: i32)
    requires
        0 <= key,
        query < w,
    ensures
        visible(query, key, Some(w)) == visible(query, key, None),
{
}

} // verus!
