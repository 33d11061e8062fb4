//! The shapes of attention.

use vstd::prelude::*;

use crate::config::ModelConfig;

verus! {

/// The shapes that queries, keys and values are brought to, and that the result
/// is brought back to.
#[derive(Debug, Clone, Copy)]
pub struct Shapes {
    pub q: [i32; 3],
    pub kv: [i32; 3],
    pub out: [i32; 2],
}

impl Shapes {
    /// Whether these are the shapes for `seq_len` tokens.
    pub open spec fn are_for(
        self,
        seq_len: i32,
        n_heads: i32,
        kv_heads: i32,
        head_dim: i32,
    ) -> bool {
        &&& self.q@ == seq![seq_len, n_heads, head_dim]
        &&& self.kv@ == seq![seq_len, kv_heads, head_dim]
        &&& self.out@ == seq![seq_len, (n_heads * head_dim) as i32]
    }
}

/// The shapes for `seq_len` tokens.
pub fn shapes(seq_len: i32, n_heads: i32, kv_heads: i32, head_dim: i32) -> (r: Shapes)
    requires
        i32::MIN <= n_heads * head_dim <= i32::MAX,
    ensures
        r.are_for(seq_len, n_heads, kv_heads, head_dim),
{
    let r = Shapes {
        q: [seq_len, n_heads, head_dim],
        kv: [seq_len, kv_heads, head_dim],
        out: [seq_len, n_heads * head_dim],
    };
    assert(r.q@ =~= seq![seq_len, n_heads, head_dim]);
    assert(r.kv@ =~= seq![seq_len, kv_heads, head_dim]);
    assert(r.out@ =~= seq![seq_len, (n_heads * head_dim) as i32]);
    r
}

/// Bringing the queries to heads and the result back keeps the number of
/// values.
pub proof fn law_heads_keep_the_number_of_values(
    s: Shapes,
    seq_len: i32,
    n_heads: i32,
    kv_heads: i32,
    head_dim: i32,
)
    requires
        s.are_for(seq_len, n_heads, kv_heads, head_dim),
        i32::MIN <= n_heads * head_dim <= i32::MAX,
    ensures
        s.q@[0] * s.q@[1] * s.q@[2] == s.out@[0] * s.out@[1],
{
    assert(seq_len * n_heads * head_dim == seq_len * (n_heads * head_dim)) by (nonlinear_arith);
}

/// Whether the sizes of a model's heads fit the array library, which counts in
/// `i32`, and there is a key/value head to share.
pub open spec fn sizes_fit(cfg: ModelConfig) -> bool {
    &&& 0 < cfg.num_attention_heads <= i32::MAX
    &&& 0 < cfg.kv_heads_spec() <= i32::MAX
    &&& cfg.per_head_dim_spec() <= i32::MAX
    &&& cfg.num_attention_heads * cfg.per_head_dim_spec() <= i32::MAX
}

/// Whether the sizes of a model's heads fit the array library, and there is a
/// key/value head to share.
pub fn check_sizes(cfg: &ModelConfig) -> (r: bool)
    ensures
        r == sizes_fit(*cfg),
{
    if cfg.num_attention_heads == 0 || cfg.num_attention_heads > 0x7fff_ffff {
        return false;
    }
    let kv = cfg.kv_heads();
    let dim = cfg.per_head_dim();
    if kv == 0 || kv > 0x7fff_ffff || dim > 0x7fff_ffff {
        return false;
    }
    proof {
        assert(cfg.num_attention_heads * dim <= 0x7fff_ffff * 0x7fff_ffff) by (nonlinear_arith)
            requires
                cfg.num_attention_heads <= 0x7fff_ffff,
                dim <= 0x7fff_ffff,
        ;
    }
    cfg.num_attention_heads as u64 * dim as u64 <= 0x7fff_ffff
}

/// Which sizes the array library can hold: there are heads of both kinds, and their number
/// and the width of all together are below two to the power of 31.
pub proof fn law_which_sizes_fit(cfg: ModelConfig)
    requires
        0 < cfg.num_attention_heads,
    ensures
        ({
            let heads = cfg.num_attention_heads as int;
            let kv_heads = match cfg.num_key_value_heads {
                Some(n) => n as int,
                None => heads,
            };
            let dim = match cfg.head_dim {
                Some(n) => n as int,
                None => cfg.hidden_size as int / heads,
            };
            sizes_fit(cfg) <==> heads < 0x8000_0000 && 0 < kv_heads < 0x8000_0000 && heads * dim
                < 0x8000_0000
        }),
{
    let heads = cfg.num_attention_heads as int;
    let dim = cfg.per_head_dim_spec() as int;
    assert(dim <= heads * dim) by (nonlinear_arith)
        requires
            0 < heads,
            0 <= dim,
    ;
}

} // verus!
