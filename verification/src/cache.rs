//! The keys and values of past tokens, layer by layer.
//!
//! A buffer `A` of a layer has room for [`KV_PREALLOC`] positions. It is made once
//! and never shortened: how many of its positions are in use is counted, and is the
//! same for all layers. What lies behind them is written over by what comes next.

use vstd::prelude::*;

use crate::error::{Error, ErrorView};
use crate::text;
use crate::text::decimal_int_text;

verus! {

/// How many positions a buffer has room for.
pub const KV_PREALLOC: i32 = 4096;

/// The buffers of the keys and values, and how many positions are in use.
#[derive(Debug)]
pub struct KvCache<A> {
    pub k: Vec<Option<A>>,
    pub v: Vec<Option<A>>,
    pub seq_len: usize,
}

/// The slots of `layers` layers: those that there are, and empty ones.
pub open spec fn widened<A>(slots: Seq<Option<A>>, layers: nat) -> Seq<Option<A>> {
    if slots.len() < layers {
        slots + Seq::new((layers - slots.len()) as nat, |i: int| None)
    } else {
        slots
    }
}

/// Adds empty slots up to `layers`.
pub(crate) fn widen<A>(slots: &mut Vec<Option<A>>, layers: usize)
    ensures
        final(slots)@ == widened(old(slots)@, layers as nat),
{
    let ghost before = slots@;
    while slots.len() < layers
        invariant
            slots@.len() >= before.len(),
            slots@.len() <= layers || slots@ == before,
            slots@ =~= before + Seq::new((slots@.len() - before.len()) as nat, |i: int| None),
        decreases layers - slots@.len(),
    {
        slots.push(None);
    }
}

impl<A> KvCache<A> {
    /// Whether every layer has a slot for its keys and one for its values.
    pub open spec fn well_formed(self) -> bool {
        self.k@.len() == self.v@.len()
    }

    /// An empty cache.
    pub fn new() -> (r: Self)
        ensures
            r.well_formed(),
            r.k@.len() == 0,
            r.seq_len == 0,
    {
        KvCache { k: Vec::new(), v: Vec::new(), seq_len: 0 }
    }

    /// Forgets everything.
    pub fn reset(&mut self)
        ensures
            final(self).well_formed(),
            final(self).k@.len() == 0,
            final(self).seq_len == 0,
    {
        self.k.clear();
        self.v.clear();
        self.seq_len = 0;
    }

    /// Forgets all but the first `target` positions: those behind them are no longer
    /// counted as in use, while the buffers stay what they are. A cache that holds no more than
    /// that is left as it is.
    pub fn truncate(&mut self, target: usize)
        ensures
            final(self).k == old(self).k,
            final(self).v == old(self).v,
            final(self).seq_len == if target < old(self).seq_len {
                target
            } else {
                old(self).seq_len
            },
    {
        if target < self.seq_len {
            self.seq_len = target;
        }
    }

    /// Sees to a slot for each of `layers` layers.
    pub fn ensure_layers(&mut self, layers: usize)
        requires
            old(self).well_formed(),
        ensures
            final(self).well_formed(),
            final(self).seq_len == old(self).seq_len,
            final(self).k@ == widened(old(self).k@, layers as nat),
            final(self).v@ == widened(old(self).v@, layers as nat),
    {
        if self.k.len() < layers {
            widen(&mut self.k, layers);
            widen(&mut self.v, layers);
        }
    }

    /// Keeps the buffers of a layer.
    pub fn store(&mut self, layer: usize, k: A, v: A)
        requires
            old(self).well_formed(),
            layer < old(self).k@.len(),
        ensures
            final(self).well_formed(),
            final(self).seq_len == old(self).seq_len,
            final(self).k@ == old(self).k@.update(layer as int, Some(k)),
            final(self).v@ == old(self).v@.update(layer as int, Some(v)),
    {
        self.k.set(layer, Some(k));
        self.v.set(layer, Some(v));
    }

    /// Ends a pass over new tokens: their positions are in use from now on.
    pub fn advance(&mut self, span: Span)
        requires
            span.well_formed(),
            span.offset == old(self).seq_len,
        ensures
            final(self).k == old(self).k,
            final(self).v == old(self).v,
            final(self).seq_len == span.new_end,
            final(self).seq_len == old(self).seq_len + span.seq_len,
    {
        self.seq_len = span.new_end as usize;
    }
}

/// A stretch of new tokens behind the cached ones.
#[derive(Debug, Clone, Copy, PartialEq, Eq, Structural)]
pub struct Span {
    pub seq_len: i32,
    pub offset: i32,
    pub new_end: i32,
}

impl Span {
    /// Whether the stretch lies within the room of a buffer.
    pub open spec fn well_formed(self) -> bool {
        &&& 0 <= self.seq_len
        &&& 0 <= self.offset
        &&& self.new_end == self.offset + self.seq_len
        &&& self.new_end <= KV_PREALLOC
    }
}

/// The stretch of `count` new tokens behind `cached` ones.
pub open spec fn span_behind(cached: int, count: int) -> Span {
    Span { seq_len: count as i32, offset: cached as i32, new_end: (cached + count) as i32 }
}

/// The error of a cache without room for `new_end` positions.
pub open spec fn exhausted(new_end: int) -> ErrorView {
    ErrorView::Inference(
        "KV cache exhausted: requested "@ + text::decimal_int(new_end) + " positions, max 4096"@,
    )
}

/// Places `count` new tokens behind `cached` ones.
pub fn place_tokens(count: usize, cached: usize) -> (r: Result<Span, Error>)
    requires
        count + cached <= i32::MAX,
    ensures
        match r {
            Ok(s) => count + cached <= KV_PREALLOC && s.well_formed() && s.seq_len == count
                && s.offset == cached,
            Err(e) => count + cached > KV_PREALLOC && e@ == exhausted(count + cached),
        },
{
    let seq_len = count as i32;
    let offset = cached as i32;
    let new_end = offset + seq_len;
    if new_end > KV_PREALLOC {
        let mut m = "KV cache exhausted: requested ".to_owned();
        m.append(decimal_int_text(new_end).as_str());
        m.append(" positions, max 4096");
        return Err(Error::Inference(m));
    }
    Ok(Span { seq_len, offset, new_end })
}

/// The part of a buffer that a write covers, axis by axis.
#[derive(Debug, Clone, Copy)]
pub struct Window {
    pub start: [i32; 3],
    pub stop: [i32; 3],
    pub strides: [i32; 3],
}

impl Window {
    /// How many positions the write covers along an axis.
    pub open spec fn extent(self, axis: int) -> int {
        self.stop@[axis] - self.start@[axis]
    }
}

/// The shape of a buffer that a layer's keys or values are first written to.
pub fn buffer_shape(kv_heads: i32, head_dim: i32) -> (r: [i32; 3])
    ensures
        r@ == seq![kv_heads, KV_PREALLOC, head_dim],
{
    let r = [kv_heads, KV_PREALLOC, head_dim];
    assert(r@ =~= seq![kv_heads, KV_PREALLOC, head_dim]);
    r
}

/// Where the keys or values of new tokens go in a layer's buffer: behind those
/// that it holds, or to the front of a fresh one.
pub open spec fn write_start(has_buffer: bool, span: Span) -> int {
    if has_buffer {
        span.offset as int
    } else {
        0
    }
}

/// The window of a buffer that the keys or values of new tokens are written to.
pub fn write_window(has_buffer: bool, kv_heads: i32, head_dim: i32, span: Span) -> (r: Window)
    requires
        span.well_formed(),
    ensures
        r.start@ == seq![0i32, write_start(has_buffer, span) as i32, 0i32],
        r.stop@ == seq![
            kv_heads,
            (write_start(has_buffer, span) + span.seq_len) as i32,
            head_dim,
        ],
        r.strides@ == seq![1i32, 1i32, 1i32],
{
    let r = if has_buffer {
        Window {
            start: [0, span.offset, 0],
            stop: [kv_heads, span.new_end, head_dim],
            strides: [1, 1, 1],
        }
    } else {
        Window {
            start: [0, 0, 0],
            stop: [kv_heads, span.seq_len, head_dim],
            strides: [1, 1, 1],
        }
    };
    assert(r.start@ =~= seq![0i32, write_start(has_buffer, span) as i32, 0i32]);
    assert(r.stop@ =~= seq![
        kv_heads,
        (write_start(has_buffer, span) + span.seq_len) as i32,
        head_dim,
    ]);
    assert(r.strides@ =~= seq![1i32, 1i32, 1i32]);
    r
}

/// How the keys or values of new tokens are kept in a layer's buffer.
#[derive(Debug, Clone, Copy)]
pub struct KvWrite {
    /// The shape of the buffer to make first, where the layer has none.
    pub fresh: Option<[i32; 3]>,
    /// Where in the buffer they go.
    pub window: Window,
    /// How many positions are read back.
    pub read_end: i32,
}

impl KvWrite {
    /// Whether this is the write of `span` to a layer's buffer.
    pub open spec fn is_write(
        self,
        has_buffer: bool,
        kv_heads: i32,
        head_dim: i32,
        span: Span,
    ) -> bool {
        &&& match self.fresh {
            Some(shape) => !has_buffer && shape@ == seq![kv_heads, KV_PREALLOC, head_dim],
            None => has_buffer,
        }
        &&& self.window.start@ == seq![0i32, write_start(has_buffer, span) as i32, 0i32]
        &&& self.window.stop@ == seq![
            kv_heads,
            (write_start(has_buffer, span) + span.seq_len) as i32,
            head_dim,
        ]
        &&& self.window.strides@ == seq![1i32, 1i32, 1i32]
        &&& self.read_end == span.new_end
    }
}

/// Plans how the keys or values of new tokens are kept in a layer's buffer.
pub fn plan_write(has_buffer: bool, kv_heads: i32, head_dim: i32, span: Span) -> (r: KvWrite)
    requires
        span.well_formed(),
    ensures
        r.is_write(has_buffer, kv_heads, head_dim, span),
{
    let fresh = if has_buffer {
        None
    } else {
        Some(buffer_shape(kv_heads, head_dim))
    };
    KvWrite {
        fresh,
        window: write_window(has_buffer, kv_heads, head_dim, span),
        read_end: span.new_end,
    }
}

/// Token ids as the array library takes them.
pub fn token_ids(tokens: &[u32]) -> (r: Vec<i32>)
    ensures
        r@ == tokens@.map_values(|t: u32| t as i32),
{
    let mut out: Vec<i32> = Vec::new();
    let mut i: usize = 0;
    while i < tokens.len()
        invariant
            i <= tokens@.len(),
            out@ =~= tokens@.take(i as int).map_values(|t: u32| t as i32),
        decreases tokens@.len() - i,
    {
        out.push(tokens[i] as i32);
        i = i + 1;
    }
    assert(tokens@.take(i as int) =~= tokens@);
    out
}

/// The window that new keys or values are written to has the shape of what is
/// written, and lies within a fresh buffer.
pub proof fn law_a_write_fits(
    has_buffer: bool,
    kv_heads: i32,
    head_dim: i32,
    span: Span,
    write: KvWrite,
)
    requires
        span.well_formed(),
        write.is_write(has_buffer, kv_heads, head_dim, span),
    ensures
        write.window.extent(0) == kv_heads,
        write.window.extent(1) == span.seq_len,
        write.window.extent(2) == head_dim,
        0 <= write.window.start@[1],
        write.window.stop@[1] <= KV_PREALLOC,
        has_buffer || span.offset == 0 ==> write.window.stop@[1] == write.read_end,
{
}

/// The rows of a buffer once `rows` have been written to it.
pub open spec fn written<T>(buffer: Seq<T>, write: KvWrite, rows: Seq<T>) -> Seq<T> {
    Seq::new(
        buffer.len(),
        |i: int|
            if write.window.start@[1] <= i < write.window.stop@[1] {
                rows[i - write.window.start@[1]]
            } else {
                buffer[i]
            },
    )
}

/// The rows that are read back from a buffer.
pub open spec fn read_back<T>(buffer: Seq<T>, write: KvWrite) -> Seq<T> {
    buffer.take(write.read_end as int)
}

/// A write behind what a buffer holds changes none of it, and what is read back is
/// all that was held, then the new rows. The buffer stays as long as it was made.
pub proof fn law_a_write_goes_behind_what_is_held<T>(
    buffer: Seq<T>,
    rows: Seq<T>,
    has_buffer: bool,
    kv_heads: i32,
    head_dim: i32,
    span: Span,
    write: KvWrite,
)
    requires
        buffer.len() == KV_PREALLOC,
        rows.len() == span.seq_len,
        span.well_formed(),
        has_buffer || span.offset == 0,
        write.is_write(has_buffer, kv_heads, head_dim, span),
    ensures
        written(buffer, write, rows).len() == KV_PREALLOC,
        written(buffer, write, rows).take(span.offset as int) == buffer.take(span.offset as int),
        read_back(written(buffer, write, rows), write) == buffer.take(span.offset as int) + rows,
{
    let after = written(buffer, write, rows);
    assert(after.take(span.offset as int) =~= buffer.take(span.offset as int));
    assert(read_back(after, write) =~= buffer.take(span.offset as int) + rows);
}

/// After a rewind a cache goes on as if what was taken back had never been fed: in
/// a buffer that was fed `a` and `b` and then rewound to the length of `a`, the next
/// rows `x` are written within the room that there is, and what is read back is `a`
/// and `x`, as from a buffer that was fed `a` alone.
pub proof fn law_a_rewound_cache_goes_on<T>(
    fresh: Seq<T>,
    other: Seq<T>,
    a: Seq<T>,
    b: Seq<T>,
    x: Seq<T>,
    kv_heads: i32,
    head_dim: i32,
    feed_a: KvWrite,
    feed_b: KvWrite,
    feed_x: KvWrite,
)
    requires
        fresh.len() == KV_PREALLOC,
        other.len() == KV_PREALLOC,
        a.len() + b.len() <= KV_PREALLOC,
        a.len() + x.len() <= KV_PREALLOC,
        feed_a.is_write(false, kv_heads, head_dim, span_behind(0, a.len() as int)),
        feed_b.is_write(true, kv_heads, head_dim, span_behind(a.len() as int, b.len() as int)),
        feed_x.is_write(true, kv_heads, head_dim, span_behind(a.len() as int, x.len() as int)),
    ensures
        ({
            let rewound = written(written(fresh, feed_a, a), feed_b, b);
            let untouched = written(other, feed_a, a);
            &&& feed_x.window.stop@[1] <= rewound.len()
            &&& read_back(written(rewound, feed_x, x), feed_x) == a + x
            &&& read_back(written(untouched, feed_x, x), feed_x) == a + x
        }),
{
    let n = a.len() as int;
    let span_a = span_behind(0, n);
    let span_b = span_behind(n, b.len() as int);
    let span_x = span_behind(n, x.len() as int);
    law_a_write_goes_behind_what_is_held(fresh, a, false, kv_heads, head_dim, span_a, feed_a);
    law_a_write_goes_behind_what_is_held(other, a, false, kv_heads, head_dim, span_a, feed_a);
    let one = written(fresh, feed_a, a);
    let untouched = written(other, feed_a, a);
    assert(one.take(n) =~= a);
    assert(untouched.take(n) =~= a);
    law_a_write_goes_behind_what_is_held(one, b, true, kv_heads, head_dim, span_b, feed_b);
    let rewound = written(one, feed_b, b);
    law_a_write_goes_behind_what_is_held(rewound, x, true, kv_heads, head_dim, span_x, feed_x);
    law_a_write_goes_behind_what_is_held(untouched, x, true, kv_heads, head_dim, span_x, feed_x);
}

/// New tokens are placed behind the cached ones exactly where all together are at most
/// 4096.
pub proof fn law_room_for_tokens(cached: int, count: int)
    requires
        0 <= cached,
        0 <= count,
        cached + count <= i32::MAX,
    ensures
        span_behind(cached, count).well_formed() <==> cached + count <= 4096,
        span_behind(cached, count).offset == cached,
        span_behind(cached, count).new_end == cached + count,
{
}

/// Slots that are added are empty, and stand behind those that there are, which stay; there
/// are then as many as layers, or as many as there were.
pub proof fn law_slots_are_added_behind<A>(slots: Seq<Option<A>>, layers: nat)
    ensures
        widened(slots, layers).take(slots.len() as int) == slots,
        widened(slots, layers).len() >= layers,
        widened(slots, layers).len() == layers || widened(slots, layers) == slots,
        forall|i: int|
            slots.len() <= i < widened(slots, layers).len() ==> (#[trigger] widened(
                slots,
                layers,
            )[i]) is None,
{
    assert(widened(slots, layers).take(slots.len() as int) =~= slots);
}

} // verus!
