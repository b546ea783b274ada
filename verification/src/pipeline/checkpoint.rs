//! Where things are in the files of a model.
use vstd::prelude::*;
use vstd::string::StrSliceExecFns;

use crate::error::Failure;
use crate::text::same;
use crate::weights::{Weights, WeightsView};

verus! {

/// The longest header of a safetensors file that is read: 128 MiB.
pub const MAX_HEADER: u64 = 134217728;

/// The number that bytes stand for, the least significant first.
pub open spec fn little_endian(bytes: Seq<u8>) -> nat
    decreases bytes.len(),
{
    if bytes.len() == 0 {
        0
    } else {
        bytes[0] as nat + 256 * little_endian(bytes.skip(1))
    }
}

/// The length of the header of a safetensors file, from its first eight bytes.
pub fn header_length(prefix: &[u8]) -> (r: Result<usize, Failure>)
    requires
        prefix@.len() == 8,
    ensures
        r is Ok <==> little_endian(prefix@) <= MAX_HEADER,
        r matches Ok(n) ==> n == little_endian(prefix@),
        r matches Err(e) ==> e == (Failure::HeaderLength { bytes: little_endian(prefix@) as u64 }),
{
    proof {
        lemma_little_endian8(prefix@);
    }
    let n: u64 = prefix[0] as u64 + 0x100 * (prefix[1] as u64) + 0x1_0000 * (prefix[2] as u64) + 0x100_0000 * (
    prefix[3] as u64) + 0x1_0000_0000 * (prefix[4] as u64) + 0x100_0000_0000 * (prefix[5] as u64)
        + 0x1_0000_0000_0000 * (prefix[6] as u64) + 0x100_0000_0000_0000 * (prefix[7] as u64);
    if n > MAX_HEADER {
        return Err(Failure::HeaderLength { bytes: n });
    }
    Ok(n as usize)
}

proof fn lemma_little_endian8(b: Seq<u8>)
    requires
        b.len() == 8,
    ensures
        little_endian(b) == b[0] + 0x100 * b[1] + 0x1_0000 * b[2] + 0x100_0000 * b[3] + 0x1_0000_0000 * b[4]
            + 0x100_0000_0000 * b[5] + 0x1_0000_0000_0000 * b[6] + 0x100_0000_0000_0000 * b[7],
{
    reveal_with_fuel(little_endian, 9);
    assert(b.skip(1).skip(1) =~= b.skip(2));
    assert(b.skip(2).skip(1) =~= b.skip(3));
    assert(b.skip(3).skip(1) =~= b.skip(4));
    assert(b.skip(4).skip(1) =~= b.skip(5));
    assert(b.skip(5).skip(1) =~= b.skip(6));
    assert(b.skip(6).skip(1) =~= b.skip(7));
    assert(b.skip(7).skip(1) =~= b.skip(8));
}

// Files of a checkpoint in parts.

/// Whether a file name has the extension of safetensors files, behind something else.
pub open spec fn is_shard(name: Seq<char>) -> bool {
    name.len() > 12 && name.skip(name.len() - 12) == ".safetensors"@
}

/// Whether `a` comes before `b` in the order of characters, or is `b`.
pub open spec fn in_order(a: Seq<char>, b: Seq<char>) -> bool
    decreases a.len(),
{
    if a.len() == 0 {
        true
    } else if b.len() == 0 {
        false
    } else if a[0] == b[0] {
        in_order(a.skip(1), b.skip(1))
    } else {
        a[0] < b[0]
    }
}

proof fn lemma_in_order_transitive(a: Seq<char>, b: Seq<char>, c: Seq<char>)
    requires
        in_order(a, b),
        in_order(b, c),
    ensures
        in_order(a, c),
    decreases a.len(),
{
    if a.len() > 0 && a[0] == b[0] && b[0] == c[0] {
        lemma_in_order_transitive(a.skip(1), b.skip(1), c.skip(1));
    }
}

proof fn lemma_in_order_total(a: Seq<char>, b: Seq<char>)
    ensures
        in_order(a, b) || in_order(b, a),
    decreases a.len(),
{
    if a.len() > 0 && b.len() > 0 && a[0] == b[0] {
        lemma_in_order_total(a.skip(1), b.skip(1));
    }
}

fn shard(name: &str) -> (r: bool)
    ensures
        r == is_shard(name@),
{
    let n: usize = name.unicode_len();
    if n <= 12 {
        return false;
    }
    let tail = name.substring_char(n - 12, n);
    assert(tail@ =~= name@.skip(n - 12));
    same(tail, ".safetensors")
}

fn ordered(a: &str, b: &str) -> (r: bool)
    ensures
        r == in_order(a@, b@),
{
    let n: usize = a.unicode_len();
    let m: usize = b.unicode_len();
    let mut i: usize = 0;
    proof {
        assert(a@.skip(0) =~= a@);
        assert(b@.skip(0) =~= b@);
    }
    while i < n && i < m
        invariant
            i <= n == a@.len(),
            i <= m == b@.len(),
            in_order(a@, b@) == in_order(a@.skip(i as int), b@.skip(i as int)),
        decreases n - i,
    {
        let x: char = a.get_char(i);
        let y: char = b.get_char(i);
        if x != y {
            return x < y;
        }
        assert(a@.skip(i as int).skip(1) =~= a@.skip(i + 1));
        assert(b@.skip(i as int).skip(1) =~= b@.skip(i + 1));
        i = i + 1;
    }
    i >= n
}

/// The characters of file names.
pub open spec fn texts(names: Seq<String>) -> Seq<Seq<char>> {
    names.map_values(|s: String| s@)
}

/// Whether file names are in ascending order.
pub open spec fn ascending(names: Seq<Seq<char>>) -> bool {
    forall|i: int, j: int| 0 <= i <= j < names.len() ==> in_order(#[trigger] names[i], #[trigger] names[j])
}

fn insert(sorted: &mut Vec<String>, name: String)
    requires
        ascending(texts(old(sorted)@)),
    ensures
        ascending(texts(final(sorted)@)),
        texts(final(sorted)@).to_multiset() == texts(old(sorted)@).to_multiset().insert(name@),
        final(sorted)@.len() == old(sorted)@.len() + 1,
{
    let ghost before = sorted@;
    let ghost old_texts = texts(before);
    let n: usize = sorted.len();
    let mut i: usize = 0;
    while i < n && ordered(sorted[i].as_str(), name.as_str())
        invariant
            i <= n == sorted@.len(),
            sorted@ == before,
            old_texts == texts(before),
            forall|k: int| 0 <= k < i ==> in_order(#[trigger] old_texts[k], name@),
        decreases n - i,
    {
        i = i + 1;
    }
    let ghost x = name@;
    sorted.insert(i, name);
    proof {
        let new_texts = texts(sorted@);
        assert(new_texts =~= old_texts.insert(i as int, x));
        broadcast use vstd::seq_lib::group_to_multiset_ensures;

        assert(old_texts.insert(i as int, x).to_multiset() =~= old_texts.to_multiset().insert(x));
        assert(i < n ==> !in_order(old_texts[i as int], x));
        if i < n {
            lemma_in_order_total(old_texts[i as int], x);
        }
        assert forall|j: int, k: int| 0 <= j <= k < new_texts.len() implies in_order(
            #[trigger] new_texts[j],
            #[trigger] new_texts[k],
        ) by {
            if j == k {
                lemma_in_order_total(new_texts[j], new_texts[j]);
            } else if k < i {
                assert(new_texts[j] == old_texts[j] && new_texts[k] == old_texts[k]);
            } else if k == i {
                assert(new_texts[j] == old_texts[j]);
            } else if j < i {
                assert(new_texts[j] == old_texts[j] && new_texts[k] == old_texts[k - 1]);
            } else if j == i {
                assert(new_texts[k] == old_texts[k - 1]);
                assert(in_order(old_texts[i as int], old_texts[k - 1]));
                lemma_in_order_transitive(x, old_texts[i as int], old_texts[k - 1]);
            } else {
                assert(new_texts[j] == old_texts[j - 1] && new_texts[k] == old_texts[k - 1]);
            }
        }
    }
}

/// The safetensors files among the files of a directory, in ascending order.
pub fn find_safetensors(names: Vec<String>) -> (r: Result<Vec<String>, Failure>)
    ensures
        r matches Ok(v) ==> {
            &&& ascending(texts(v@))
            &&& texts(v@).to_multiset() == texts(names@).filter(|n: Seq<char>| is_shard(n)).to_multiset()
        },
        r is Ok <==> exists|i: int| 0 <= i < names.len() && is_shard(#[trigger] names@[i]@),
        r matches Err(e) ==> e is NoWeights,
{
    let ghost keep = |n: Seq<char>| is_shard(n);
    let mut sorted: Vec<String> = Vec::new();
    let mut i: usize = 0;
    let ghost all = texts(names@);
    proof {
        assert(texts(sorted@) =~= Seq::<Seq<char>>::empty());
        assert(all.take(0) =~= Seq::<Seq<char>>::empty());
        reveal(Seq::filter);
    }
    while i < names.len()
        invariant
            i <= names.len(),
            all == texts(names@),
            keep == (|n: Seq<char>| is_shard(n)),
            ascending(texts(sorted@)),
            texts(sorted@).to_multiset() == all.take(i as int).filter(keep).to_multiset(),
            sorted@.len() > 0 <==> exists|k: int| 0 <= k < i && is_shard(#[trigger] names@[k]@),
        decreases names.len() - i,
    {
        proof {
            broadcast use vstd::seq_lib::group_to_multiset_ensures;

            reveal(Seq::filter);
            assert(all.take(i + 1).drop_last() =~= all.take(i as int));
            assert(all.take(i + 1).last() == names@[i as int]@);
            if is_shard(names@[i as int]@) {
                assert(all.take(i + 1).filter(keep) == all.take(i as int).filter(keep).push(names@[i as int]@));
            } else {
                assert(all.take(i + 1).filter(keep) == all.take(i as int).filter(keep));
            }
        }
        if shard(names[i].as_str()) {
            insert(&mut sorted, names[i].clone());
        }
        i = i + 1;
    }
    assert(all.take(i as int) =~= all);
    if sorted.len() == 0 {
        return Err(Failure::NoWeights);
    }
    Ok(sorted)
}

// Components of a checkpoint.

/// Whether the embeddings of the language model are right below.
pub open spec fn is_gemma_root(vb: WeightsView) -> bool {
    vb.pp("embed_tokens"@).has("weight"@)
}

/// Where the language model is: the first of three places with embeddings.
pub fn select_gemma_root(vb: Weights) -> (r: Result<Weights, Failure>)
    ensures
        ({
            let first = vb@.pp("language_model"@).pp("model"@);
            let second = vb@.pp("model"@);
            if is_gemma_root(first) {
                r matches Ok(w) && w@ == first
            } else if is_gemma_root(second) {
                r matches Ok(w) && w@ == second
            } else if is_gemma_root(vb@) {
                r matches Ok(w) && w@ == vb@
            } else {
                r matches Err(Failure::Missing { what }) && what@ == "embed_tokens.weight"@
            }
        }),
{
    let first = vb.pp("language_model").pp("model");
    if first.pp("embed_tokens").contains_tensor("weight") {
        return Ok(first);
    }
    let second = vb.pp("model");
    if second.pp("embed_tokens").contains_tensor("weight") {
        return Ok(second);
    }
    if vb.pp("embed_tokens").contains_tensor("weight") {
        return Ok(vb);
    }
    Err(Failure::Missing { what: "embed_tokens.weight".to_owned() })
}

/// The transformer of a checkpoint.
pub fn transformer_weights(vb: &Weights) -> (r: Weights)
    ensures
        r@ == vb@.pp("model"@).pp("diffusion_model"@),
{
    vb.pp("model").pp("diffusion_model")
}

/// The transformer of an adapter.
pub fn adapter_weights(vb: &Weights) -> (r: Weights)
    ensures
        r@ == vb@.pp("diffusion_model"@),
{
    vb.pp("diffusion_model")
}

/// The feature projection, the video connector and the audio connector of a checkpoint.
pub fn text_weights(vb: &Weights) -> (r: (Weights, Weights, Weights))
    ensures
        r.0@ == vb@.pp("text_embedding_projection"@),
        r.1@ == vb@.pp("model"@).pp("diffusion_model"@).pp("video_embeddings_connector"@),
        r.2@ == vb@.pp("model"@).pp("diffusion_model"@).pp("audio_embeddings_connector"@),
{
    let model = vb.pp("model").pp("diffusion_model");
    (
        vb.pp("text_embedding_projection"),
        model.pp("video_embeddings_connector"),
        model.pp("audio_embeddings_connector"),
    )
}

/// The statistics and the decoder of the video latents of a checkpoint.
pub fn video_weights(vb: &Weights) -> (r: (Weights, Weights))
    ensures
        r.0@ == vb@.pp("vae"@).pp("per_channel_statistics"@),
        r.1@ == vb@.pp("vae"@).pp("decoder"@),
{
    let vae = vb.pp("vae");
    (vae.pp("per_channel_statistics"), vae.pp("decoder"))
}

/// The statistics and the decoder of the audio latents of a checkpoint.
pub fn audio_weights(vb: &Weights) -> (r: (Weights, Weights))
    ensures
        r.0@ == vb@.pp("audio_vae"@).pp("per_channel_statistics"@),
        r.1@ == vb@.pp("audio_vae"@).pp("decoder"@),
{
    let vae = vb.pp("audio_vae");
    (vae.pp("per_channel_statistics"), vae.pp("decoder"))
}

/// The vocoder of a checkpoint.
pub fn vocoder_weights(vb: &Weights) -> (r: Weights)
    ensures
        r@ == vb@.pp("vocoder"@),
{
    vb.pp("vocoder")
}

} // verus!
