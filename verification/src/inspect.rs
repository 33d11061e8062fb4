//! Listing the tensors of a checkpoint.

use vstd::bytes::*;
use vstd::multiset::*;
use vstd::prelude::*;
use vstd::seq_lib::*;
use vstd::slice::slice_subrange;
use vstd::string::*;
use vstd::utf8::*;

use crate::tensors;
use crate::text;
use crate::text::{concat2, decimal_text, pad};

verus! {

/// A tensor of a weight file: its name, shape and element type.
#[derive(Debug)]
pub struct TensorInfo {
    pub name: String,
    pub shape: Vec<usize>,
    pub dtype: String,
}

/// The shape and the element type of a tensor.
pub struct TensorKind {
    pub shape: Seq<usize>,
    pub dtype: Seq<char>,
}

/// The tensors of a weight file with these bytes, by name; none where
/// `safetensors` rejects the file.
pub uninterp spec fn weight_file(bytes: Seq<u8>) -> Option<Map<Seq<char>, TensorKind>>;

/// The names in a listing.
pub open spec fn names_of(infos: Seq<TensorInfo>) -> Seq<Seq<char>> {
    infos.map_values(|t: TensorInfo| t.name@)
}

/// Whether `infos` lists the tensors `file`, each once, in whatever order.
pub open spec fn lists(infos: Seq<TensorInfo>, file: Map<Seq<char>, TensorKind>) -> bool {
    &&& tensors::distinct(names_of(infos))
    &&& names_of(infos).to_set() == file.dom()
    &&& forall|i: int|
        0 <= i < infos.len() ==> file[(#[trigger] infos[i]).name@].shape == infos[i].shape@
            && file[infos[i].name@].dtype == infos[i].dtype@
}

/// The longest header, in bytes, that a weight file may have.
pub const MAX_HEADER: u64 = 100_000_000;

/// How many bytes the header of a weight file has, as its first eight bytes say.
pub open spec fn header_len(bytes: Seq<u8>) -> u64 {
    spec_u64_from_le_bytes(bytes.subrange(0, 8))
}

/// The header of a weight file, where it is there and is text.
pub open spec fn header_of(bytes: Seq<u8>) -> Option<Seq<char>> {
    if bytes.len() >= 8 && header_len(bytes) <= MAX_HEADER && header_len(bytes) + 8 <= bytes.len() {
        let header = bytes.subrange(8, header_len(bytes) + 8);
        if valid_utf8(header) {
            Some(decode_utf8(header))
        } else {
            None
        }
    } else {
        None
    }
}

/// Where the data of the tensors that a header lists is claimed to end, one entry
/// for each tensor; none where `serde_json` does not read the header as a
/// `safetensors::tensor::Metadata`.
pub uninterp spec fn claimed_ends(header: Seq<char>) -> Option<Multiset<usize>>;

/// Whether the end of all that the header of a weight file claims, counted from the
/// start of the file, is a number that `usize` holds.
pub open spec fn within_reach(bytes: Seq<u8>) -> bool {
    match header_of(bytes) {
        Some(header) => match claimed_ends(header) {
            Some(ends) => forall|end: usize| #[trigger]
                ends.count(end) > 0 ==> end + 8 + header_len(bytes) <= usize::MAX,
            None => true,
        },
        None => true,
    }
}

/// The tensors of a weight file with these bytes, by name; none where the file is
/// rejected.
pub open spec fn opened(bytes: Seq<u8>) -> Option<Map<Seq<char>, TensorKind>> {
    if within_reach(bytes) {
        weight_file(bytes)
    } else {
        None
    }
}

/// Calls `std::str::from_utf8`: the text of bytes that are UTF-8, and nothing for
/// others.
#[verifier::external_body]
fn utf8_text<'a>(bytes: &'a [u8]) -> (r: Option<&'a str>)
    ensures
        match r {
            Some(s) => valid_utf8(bytes@) && s@ == decode_utf8(bytes@),
            None => !valid_utf8(bytes@),
        },
{
    std::str::from_utf8(bytes).ok()
}

/// Calls `serde_json::from_str` for a `safetensors::tensor::Metadata` and, on what
/// it gives, `Metadata::tensors`, whose order is that of a hash map; of each tensor
/// it takes the second of its `data_offsets`. The contract names what comes out, of
/// whose order nothing is said. The offsets are those of the header as it stands:
/// whether they fit together is not looked at here.
#[verifier::external_body]
fn header_ends(header: &str) -> (r: Option<Vec<usize>>)
    ensures
        match r {
            Some(ends) => claimed_ends(header@) == Some(ends@.to_multiset()),
            None => claimed_ends(header@) is None,
        },
{
    let metadata = serde_json::from_str::<safetensors::tensor::Metadata>(header).ok()?;
    Some(metadata.tensors().values().map(|info| info.data_offsets.1).collect())
}

/// Whether the header of a weight file claims no end beyond `usize`.
fn is_within_reach(bytes: &[u8]) -> (r: bool)
    ensures
        r == within_reach(bytes@),
{
    if bytes.len() < 8 {
        return true;
    }
    let n = u64_from_le_bytes(slice_subrange(bytes, 0, 8));
    if n > MAX_HEADER || n as usize > bytes.len() - 8 {
        return true;
    }
    let stop: usize = n as usize + 8;
    let header = match utf8_text(slice_subrange(bytes, 8, stop)) {
        Some(header) => header,
        None => return true,
    };
    let ends = match header_ends(header) {
        Some(ends) => ends,
        None => return true,
    };
    let mut i: usize = 0;
    while i < ends.len()
        invariant
            i <= ends@.len(),
            n <= MAX_HEADER,
            stop == n + 8,
            n == header_len(bytes@),
            header_of(bytes@) == Some(header@),
            claimed_ends(header@) == Some(ends@.to_multiset()),
            forall|j: int| 0 <= j < i ==> #[trigger] ends@[j] + 8 + n <= usize::MAX,
        decreases ends@.len() - i,
    {
        if ends[i] > usize::MAX - stop {
            proof {
                broadcast use group_to_multiset_ensures;

                assert(ends@.contains(ends@[i as int]));
                let claimed = claimed_ends(header_of(bytes@).unwrap()).unwrap();
                assert(claimed.count(ends@[i as int]) > 0);
                assert(ends@[i as int] + 8 + header_len(bytes@) > usize::MAX);
                assert(!within_reach(bytes@));
            }
            return false;
        }
        i = i + 1;
    }
    assert forall|end: usize| #[trigger] ends@.to_multiset().count(end) > 0 implies end + 8
        + header_len(bytes@) <= usize::MAX by {
        broadcast use group_to_multiset_ensures;

        assert(ends@.contains(end));
    }
    true
}

/// Calls `safetensors::SafeTensors::deserialize` and, on what it gives,
/// `SafeTensors::tensors`, whose order is that of a hash map. The contract names
/// the tensors that a file holds, and says that the listing has each of them
/// once. Which error a rejected file gets is not stated: of several faults the
/// order of a hash map decides which is found first. The sum of the end of the last
/// tensor, of the header and of its length is computed unchecked, so that it has to
/// be one that `usize` holds.
#[verifier::external_body]
fn read_weight_file(bytes: &[u8]) -> (r: Result<Vec<TensorInfo>, String>)
    requires
        within_reach(bytes@),
    ensures
        match r {
            Ok(infos) => weight_file(bytes@) matches Some(file) && lists(infos@, file),
            Err(_) => weight_file(bytes@) is None,
        },
{
    let file = safetensors::SafeTensors::deserialize(bytes).map_err(|e| e.to_string())?;
    let list = file.tensors().into_iter().map(|(name, view)| TensorInfo {
        name,
        shape: view.shape().to_vec(),
        dtype: format!("{:?}", view.dtype()),
    });
    Ok(list.collect())
}

/// The tensors found so far: the first of them, up to a limit, and how many
/// there are in all.
#[derive(Debug)]
pub struct Listing {
    pub shown: Vec<TensorInfo>,
    pub total: usize,
}

/// The smaller of two numbers.
pub open spec fn smaller(a: int, b: int) -> int {
    if a < b {
        a
    } else {
        b
    }
}

impl Listing {
    /// Whether as much is shown as the limit allows: never more, and less only
    /// where there is no more.
    pub open spec fn full(self, limit: usize) -> bool {
        self.shown@.len() == smaller(limit as int, self.total as int)
    }

    /// Nothing found yet.
    pub fn new() -> (r: Listing)
        ensures
            r.shown@.len() == 0,
            r.total == 0,
            forall|limit: usize| #[trigger] r.full(limit),
    {
        Listing { shown: Vec::new(), total: 0 }
    }

    /// Adds the tensors of a weight file, and shows them as far as the limit
    /// allows.
    pub fn add(&mut self, infos: Vec<TensorInfo>, limit: usize)
        requires
            old(self).total + infos@.len() <= usize::MAX,
        ensures
            final(self).total == old(self).total + infos@.len(),
            final(self).shown@ == old(self).shown@ + infos@.take(
                smaller(
                    infos@.len() as int,
                    if old(self).shown@.len() < limit {
                        limit - old(self).shown@.len()
                    } else {
                        0
                    },
                ),
            ),
            old(self).full(limit) ==> final(self).full(limit),
    {
        let ghost all = infos@;
        let mut rest = infos;
        self.total = self.total + rest.len();
        let room: usize = if self.shown.len() < limit {
            limit - self.shown.len()
        } else {
            0
        };
        rest.truncate(room);
        assert(rest@ =~= all.take(smaller(all.len() as int, room as int)));
        self.shown.append(&mut rest);
    }
}

/// Adds the tensors of a weight file with these bytes to a listing. A listing
/// whose count would outgrow `usize` stays as it is, and so does one to which a
/// rejected file was to be added. A file whose header claims data up to an end
/// beyond `usize` is rejected.
pub fn inspect_shard(listing: &mut Listing, bytes: &[u8], limit: usize) -> (r: Result<(), String>)
    ensures
        match r {
            Ok(()) => opened(bytes@) is Some && exists|infos: Vec<TensorInfo>|
                #[trigger] lists(infos@, opened(bytes@).unwrap()) && (if old(listing).total
                    + infos@.len() <= usize::MAX {
                    final(listing).total == old(listing).total + infos@.len()
                        && final(listing).shown@ == old(listing).shown@ + infos@.take(
                        smaller(
                            infos@.len() as int,
                            if old(listing).shown@.len() < limit {
                                limit - old(listing).shown@.len()
                            } else {
                                0
                            },
                        ),
                    )
                } else {
                    *final(listing) == *old(listing)
                }),
            Err(_) => opened(bytes@) is None && *final(listing) == *old(listing),
        },
        old(listing).full(limit) ==> final(listing).full(limit),
{
    if !is_within_reach(bytes) {
        return Err("header claims more than fits".to_owned());
    }
    let infos = read_weight_file(bytes)?;
    if infos.len() <= usize::MAX - listing.total {
        listing.add(infos, limit);
    }
    Ok(())
}

/// Numbers between square brackets.
pub open spec fn shape_text(shape: Seq<usize>) -> Seq<char> {
    "["@ + numbers(shape) + "]"@
}

/// Numbers with commas between them.
pub open spec fn numbers(shape: Seq<usize>) -> Seq<char>
    decreases shape.len(),
{
    if shape.len() == 0 {
        Seq::empty()
    } else if shape.len() == 1 {
        text::decimal(shape[0] as nat)
    } else {
        numbers(shape.drop_last()) + ", "@ + text::decimal(shape.last() as nat)
    }
}

/// The line that shows a tensor.
pub fn tensor_line(info: &TensorInfo) -> (r: String)
    ensures
        r@ == "  "@ + text::padded(info.name@, 60) + "  "@ + shape_text(info.shape@) + "  "@
            + info.dtype@,
{
    let mut out = concat2("  ", pad(info.name.as_str(), 60).as_str());
    out.append("  ");
    let mut list = String::new();
    let mut i: usize = 0;
    while i < info.shape.len()
        invariant
            i <= info.shape@.len(),
            list@ == numbers(info.shape@.take(i as int)),
        decreases info.shape@.len() - i,
    {
        assert(info.shape@.take(i + 1).drop_last() =~= info.shape@.take(i as int));
        if i > 0 {
            list.append(", ");
        }
        list.append(decimal_text(info.shape[i] as u64).as_str());
        proof {
            if i == 0 {
                assert(list@ =~= text::decimal(info.shape@[0] as nat));
            }
        }
        i = i + 1;
    }
    assert(info.shape@.take(i as int) =~= info.shape@);
    out.append("[");
    out.append(list.as_str());
    out.append("]");
    out.append("  ");
    out.append(info.dtype.as_str());
    assert(out@ =~= "  "@ + text::padded(info.name@, 60) + "  "@ + shape_text(info.shape@) + "  "@
        + info.dtype@);
    out
}

/// The line under a listing.
pub fn summary_line(shards: usize, listing: &Listing) -> (r: String)
    ensures
        r@ == "("@ + text::decimal(shards as nat) + " shards, "@ + text::decimal(
            listing.total as nat,
        ) + " tensors total; showing "@ + text::decimal(listing.shown@.len()) + ")"@,
{
    let mut out = concat2("(", decimal_text(shards as u64).as_str());
    out.append(" shards, ");
    out.append(decimal_text(listing.total as u64).as_str());
    out.append(" tensors total; showing ");
    out.append(decimal_text(listing.shown.len() as u64).as_str());
    out.append(")");
    out
}

} // verus!
