//! From text to tokens, with padding on the left.
use vstd::prelude::*;
use vstd::string::StrSliceExecFns;

use crate::array::{self, Array};
use crate::error::Failure;
use crate::model::{self, TensorView};

verus! {

/// Tokenizer of the tokenizers crate, carried through unopened.
#[verifier::external_type_specification]
#[verifier::external_body]
pub struct ExTokenizer(tokenizers::Tokenizer);

/// What a file with these bytes says of a tokenizer, if it describes one: how many special tokens
/// it adds to a text, whether it leaves out merges at random, and the number of each token.
pub uninterp spec fn described(bytes: Seq<u8>) -> Option<(usize, bool, Map<Seq<char>, u32>)>;

/// The number of a token, if the tokenizer knows it.
pub uninterp spec fn number_of(t: tokenizers::Tokenizer, token: Seq<char>) -> Option<u32>;

/// The token with a number, if there is one.
pub uninterp spec fn token_of(t: tokenizers::Tokenizer, id: u32) -> Option<Seq<char>>;

/// How many special tokens the tokenizer adds to a text.
pub uninterp spec fn special_count(t: tokenizers::Tokenizer) -> usize;

/// The tokenizer that in addition fills up to `length` tokens, on the left or on the right.
pub uninterp spec fn filling(
    t: tokenizers::Tokenizer,
    length: usize,
    left: bool,
    id: u32,
    token: Seq<char>,
) -> tokenizers::Tokenizer;

/// The tokenizer that in addition cuts off what is beyond `length` tokens.
pub uninterp spec fn cutting(t: tokenizers::Tokenizer, length: usize) -> tokenizers::Tokenizer;

/// The number of tokens beyond which the tokenizer cuts off.
pub uninterp spec fn cut_length(t: tokenizers::Tokenizer) -> Option<usize>;

/// How many tokens the parts of a text that is cut have in common.
pub uninterp spec fn cut_overlap(t: tokenizers::Tokenizer) -> usize;

/// Whether the tokenizer leaves out merges at random.
pub uninterp spec fn is_random(t: tokenizers::Tokenizer) -> bool;

/// The tokens of a text and, for each, one if it is not padding, if the tokenizer can split the
/// text. Without meaning for a tokenizer that is random.
pub uninterp spec fn encoded(t: tokenizers::Tokenizer, text: Seq<char>, special: bool) -> Option<
    (Seq<u32>, Seq<u32>),
>;

/// Whether a tokenizer is as a description says.
pub open spec fn is_as(t: tokenizers::Tokenizer, description: (usize, bool, Map<Seq<char>, u32>)) -> bool {
    &&& special_count(t) == description.0
    &&& is_random(t) == description.1
    &&& forall|token: Seq<char>|
        #![trigger number_of(t, token)]
        number_of(t, token) == (if description.2.dom().contains(token) {
            Some(description.2[token])
        } else {
            None
        })
}

/// Whether this is a tokenizer that a file with these bytes describes. There can be several: where
/// two tokens have one number, which of them stands for it is left open.
pub open spec fn is_described(t: tokenizers::Tokenizer, bytes: Seq<u8>) -> bool {
    described(bytes) matches Some(d) && is_as(t, d)
}

/// `Tokenizer::from_bytes` of tokenizers: reads the description of a tokenizer. Whether the bytes
/// are one, and the special tokens, the randomness and the numbers of the tokens are functions of
/// the bytes. Which token stands for a number that two have is not, so nothing is said of it.
#[verifier::external_body]
fn parse(bytes: &[u8]) -> (r: Result<tokenizers::Tokenizer, Failure>)
    ensures
        (r is Ok) == (described(bytes@) is Some),
        r matches Ok(t) ==> is_as(t, described(bytes@)->0),
        r matches Err(e) ==> e is Tokenizer,
{
    tokenizers::Tokenizer::from_bytes(bytes).map_err(
        |e| Failure::Tokenizer { what: format!("tokenizer load: {e}") },
    )
}

/// `Tokenizer::token_to_id` of tokenizers: the number of a token.
#[verifier::external_body]
fn token_to_id(t: &tokenizers::Tokenizer, token: &str) -> (r: Option<u32>)
    ensures
        r == number_of(*t, token@),
{
    t.token_to_id(token)
}

/// `Tokenizer::id_to_token` of tokenizers: the token with a number.
#[verifier::external_body]
fn id_to_token(t: &tokenizers::Tokenizer, id: u32) -> (r: Option<String>)
    ensures
        (r is Some) == (token_of(*t, id) is Some),
        r matches Some(s) ==> token_of(*t, id) == Some(s@),
{
    t.id_to_token(id)
}

/// `PostProcessor::added_tokens` of tokenizers: how many special tokens are added to a
/// text, none without a post-processor.
#[verifier::external_body]
fn added_tokens(t: &tokenizers::Tokenizer) -> (r: usize)
    ensures
        r == special_count(*t),
{
    t.get_post_processor().map_or(0, |p| tokenizers::PostProcessor::added_tokens(p, false))
}

/// `Tokenizer::with_padding` of tokenizers: from now on a text is filled up to `length`
/// tokens. Neither the special tokens nor where it is cut nor whether it is random changes.
#[verifier::external_body]
fn set_padding(t: &mut tokenizers::Tokenizer, length: usize, left: bool, id: u32, token: String)
    ensures
        *final(t) == filling(*old(t), length, left, id, token@),
        special_count(*final(t)) == special_count(*old(t)),
        cut_length(*final(t)) == cut_length(*old(t)),
        cut_overlap(*final(t)) == cut_overlap(*old(t)),
        is_random(*final(t)) == is_random(*old(t)),
{
    let direction = match left {
        true => tokenizers::PaddingDirection::Left,
        false => tokenizers::PaddingDirection::Right,
    };
    t.with_padding(
        Some(
            tokenizers::PaddingParams {
                strategy: tokenizers::PaddingStrategy::Fixed(length),
                direction,
                pad_id: id,
                pad_token: token,
                ..Default::default()
            },
        ),
    );
}

/// `Tokenizer::with_truncation` of tokenizers: from now on a text is cut to `length`
/// tokens, special ones included. Parts of a text that is cut do not overlap, so that any
/// length with room for the special tokens will do.
#[verifier::external_body]
fn set_truncation(t: &mut tokenizers::Tokenizer, length: usize) -> (r: Result<(), Failure>)
    requires
        special_count(*old(t)) <= length,
    ensures
        r is Ok,
        *final(t) == cutting(*old(t), length),
        cut_length(*final(t)) == Some(length),
        cut_overlap(*final(t)) == 0,
        special_count(*final(t)) == special_count(*old(t)),
        is_random(*final(t)) == is_random(*old(t)),
{
    t.with_truncation(
        Some(tokenizers::TruncationParams { max_length: length, ..Default::default() }),
    ).map_err(|e| Failure::Tokenizer { what: format!("truncation config: {e}") })?;
    Ok(())
}

/// The `dropout` of a byte-pair model of tokenizers: whether merges are left out at random.
#[verifier::external_body]
fn has_dropout(t: &tokenizers::Tokenizer) -> (r: bool)
    ensures
        r == is_random(*t),
{
    match t.get_model() {
        tokenizers::ModelWrapper::BPE(m) => m.dropout.is_some(),
        _ => false,
    }
}

/// `Tokenizer::encode` of tokenizers: the tokens of a text and which of them are not
/// padding. What comes, or that it fails, is a function of the text unless the tokenizer is
/// random. Parts of a text that is cut must not overlap by as much as they hold.
#[verifier::external_body]
fn encode_text(t: &tokenizers::Tokenizer, text: &str, special: bool) -> (r: Result<(Vec<u32>, Vec<u32>), Failure>)
    requires
        cut_length(*t) matches Some(n) ==> special_count(*t) <= n && (cut_overlap(*t) == 0 || cut_overlap(*t)
            < n - special_count(*t)),
    ensures
        r matches Ok(e) ==> is_random(*t) || encoded(*t, text@, special) == Some((e.0@, e.1@)),
        r matches Err(e) ==> e is Tokenizer && (is_random(*t) || encoded(*t, text@, special) is None),
{
    let encoding = t.encode(text, special).map_err(
        |e| Failure::Tokenizer { what: format!("encode: {e}") },
    )?;
    Ok((encoding.get_ids().to_vec(), encoding.get_attention_mask().to_vec()))
}

// White space.

/// Whether a character is white space by Unicode's property of that name.
pub open spec fn is_space(c: char) -> bool {
    let n = c as u32;
    ||| 9 <= n <= 13
    ||| n == 32
    ||| n == 0x85
    ||| n == 0xA0
    ||| n == 0x1680
    ||| 0x2000 <= n <= 0x200A
    ||| n == 0x2028
    ||| n == 0x2029
    ||| n == 0x202F
    ||| n == 0x205F
    ||| n == 0x3000
}

/// Whether `t` is `s` without the white space around it.
pub open spec fn is_trimmed(s: Seq<char>, t: Seq<char>) -> bool {
    exists|from: int, to: int| #[trigger] cuts(s, from, to) && t == s.subrange(from, to)
}

/// Whether `from .. to` is `s` without the white space around it.
pub open spec fn cuts(s: Seq<char>, from: int, to: int) -> bool {
    &&& 0 <= from <= to <= s.len()
    &&& forall|i: int| 0 <= i < from ==> is_space(#[trigger] s[i])
    &&& forall|i: int| to <= i < s.len() ==> is_space(#[trigger] s[i])
    &&& from < to ==> !is_space(s[from]) && !is_space(s[to - 1])
}

/// `s` without the white space around it.
pub open spec fn trimmed(s: Seq<char>) -> Seq<char> {
    choose|t: Seq<char>| is_trimmed(s, t)
}

/// Nothing but one text is a given text without the white space around it.
pub proof fn law_trimmed_is_unique(s: Seq<char>, a: Seq<char>, b: Seq<char>)
    requires
        is_trimmed(s, a),
        is_trimmed(s, b),
    ensures
        a == b,
{
    let (f, t) = choose|from: int, to: int| #[trigger] cuts(s, from, to) && a == s.subrange(from, to);
    let (g, u) = choose|from: int, to: int| #[trigger] cuts(s, from, to) && b == s.subrange(from, to);
    if f < t && g < u {
        assert(f == g) by {
            if f < g {
                assert(is_space(s[f]));
            } else if g < f {
                assert(is_space(s[g]));
            }
        }
        assert(t == u) by {
            if t < u {
                assert(is_space(s[u - 1]));
            } else if u < t {
                assert(is_space(s[t - 1]));
            }
        }
    } else if f < t {
        assert(is_space(s[f]));
    } else if g < u {
        assert(is_space(s[g]));
    } else {
        assert(a =~= b);
    }
}

/// White space around a text makes no difference.
pub proof fn law_trimmed_ignores_space(before: Seq<char>, s: Seq<char>, after: Seq<char>, t: Seq<char>)
    requires
        is_trimmed(s, t),
        forall|i: int| 0 <= i < before.len() ==> is_space(#[trigger] before[i]),
        forall|i: int| 0 <= i < after.len() ==> is_space(#[trigger] after[i]),
    ensures
        is_trimmed(before + s + after, t),
{
    let (f, u) = choose|from: int, to: int| #[trigger] cuts(s, from, to) && t == s.subrange(from, to);
    let whole = before + s + after;
    let n = before.len();
    assert forall|i: int| 0 <= i < n + f implies is_space(#[trigger] whole[i]) by {
        if i >= n {
            assert(whole[i] == s[i - n]);
        }
    }
    assert forall|i: int| n + u <= i < whole.len() implies is_space(#[trigger] whole[i]) by {
        if i < n + s.len() {
            assert(whole[i] == s[i - n]);
        } else {
            assert(whole[i] == after[i - n - s.len()]);
        }
    }
    assert(cuts(whole, n + f, n + u));
    assert(whole.subrange(n + f, n + u) =~= s.subrange(f, u));
}

fn space(c: char) -> (r: bool)
    ensures
        r == is_space(c),
{
    let n: u32 = c as u32;
    (9 <= n && n <= 13) || n == 32 || n == 0x85 || n == 0xA0 || n == 0x1680 || (0x2000 <= n && n <= 0x200A) || n
        == 0x2028 || n == 0x2029 || n == 0x202F || n == 0x205F || n == 0x3000
}

/// A text without the white space around it.
pub fn trim(s: &str) -> (r: &str)
    ensures
        is_trimmed(s@, r@),
        r@ == trimmed(s@),
{
    let len: usize = s.unicode_len();
    let mut from: usize = 0;
    while from < len && space(s.get_char(from))
        invariant
            from <= len == s@.len(),
            forall|i: int| 0 <= i < from ==> is_space(#[trigger] s@[i]),
        decreases len - from,
    {
        from = from + 1;
    }
    let mut to: usize = len;
    while to > from && space(s.get_char(to - 1))
        invariant
            from <= to <= len == s@.len(),
            forall|i: int| to <= i < len ==> is_space(#[trigger] s@[i]),
        decreases to - from,
    {
        to = to - 1;
    }
    let r = s.substring_char(from, to);
    proof {
        assert(cuts(s@, from as int, to as int));
        assert(is_trimmed(s@, r@));
        law_trimmed_is_unique(s@, r@, trimmed(s@));
    }
    r
}

/// The number of the token for padding: that of `<pad>`, else that of `</s>`, else zero.
pub open spec fn pad_id_of(t: tokenizers::Tokenizer) -> u32 {
    match number_of(t, "<pad>"@) {
        Some(id) => id,
        None => match number_of(t, "</s>"@) {
            Some(id) => id,
            None => 0,
        },
    }
}

/// The token for padding.
pub open spec fn pad_token_of(t: tokenizers::Tokenizer) -> Seq<char> {
    match token_of(t, pad_id_of(t)) {
        Some(token) => token,
        None => "<pad>"@,
    }
}

/// The tokenizer that gives every text `length` tokens, padding in front of them.
pub open spec fn left_padding(t: tokenizers::Tokenizer, length: usize) -> tokenizers::Tokenizer {
    cutting(filling(t, length, true, pad_id_of(t), pad_token_of(t)), length)
}

proof fn lemma_row(n: nat)
    ensures
        model::numel(seq![1, n]) == n,
{
    let one = seq![1nat];
    assert(one.drop_last() =~= Seq::<nat>::empty());
    assert(model::numel(one) == 1) by {
        assert(model::numel(Seq::<nat>::empty()) == 1);
        assert(model::numel(one) == model::numel(one.drop_last()) * 1);
    }
    assert(seq![1, n].drop_last() =~= one);
    assert(model::numel(seq![1, n]) == model::numel(one) * n);
    assert(1 * n == n);
}

/// A tokenizer that gives every text the same number of tokens, padding in front of them.
pub struct GemmaTokenizer {
    tokenizer: tokenizers::Tokenizer,
    max_length: usize,
}

impl GemmaTokenizer {
    #[verifier::type_invariant]
    spec fn inv(self) -> bool {
        &&& cut_length(self.tokenizer) == Some(self.max_length) && cut_overlap(self.tokenizer) == 0
        &&& special_count(self.tokenizer) <= self.max_length
    }

    /// The tokenizer inside.
    pub closed spec fn inner(&self) -> tokenizers::Tokenizer {
        self.tokenizer
    }

    /// The number of tokens of every text.
    pub closed spec fn length(&self) -> usize {
        self.max_length
    }

    /// Reads the description of a tokenizer.
    pub fn from_bytes(bytes: &[u8], max_length: usize) -> (r: Result<GemmaTokenizer, Failure>)
        ensures
            r matches Ok(g) ==> g.reads(bytes@, max_length),
            r is Ok <==> described(bytes@) is Some && (described(bytes@)->0).0 <= max_length,
            described(bytes@) is None ==> (r matches Err(e) && e is Tokenizer),
            described(bytes@) matches Some(d) && d.0 > max_length ==> r == Err::<GemmaTokenizer, Failure>(
                Failure::SpecialTokens { max_length, added: (described(bytes@)->0).0 },
            ),
    {
        let tokenizer = parse(bytes)?;
        assert(is_described(tokenizer, bytes@));
        GemmaTokenizer::new(tokenizer, max_length)
    }

    /// Whether this gives every text `length` tokens as a description says.
    pub open spec fn reads(&self, bytes: Seq<u8>, length: usize) -> bool {
        &&& self.length() == length
        &&& exists|t: tokenizers::Tokenizer| #[trigger]
            is_described(t, bytes) && self.inner() == left_padding(t, length) && is_random(self.inner())
                == is_random(t)
    }

    pub fn new(tokenizer: tokenizers::Tokenizer, max_length: usize) -> (r: Result<GemmaTokenizer, Failure>)
        ensures
            r matches Ok(g) ==> g.inner() == left_padding(tokenizer, max_length) && g.length() == max_length,
            r matches Ok(g) ==> is_random(g.inner()) == is_random(tokenizer),
            special_count(tokenizer) <= max_length ==> r is Ok,
            special_count(tokenizer) > max_length ==> r == Err::<GemmaTokenizer, Failure>(
                Failure::SpecialTokens { max_length, added: special_count(tokenizer) },
            ),
    {
        let pad_id: u32 = match token_to_id(&tokenizer, "<pad>") {
            Some(id) => id,
            None => match token_to_id(&tokenizer, "</s>") {
                Some(id) => id,
                None => 0,
            },
        };
        let pad_token = match id_to_token(&tokenizer, pad_id) {
            Some(token) => token,
            None => "<pad>".to_owned(),
        };
        let added: usize = added_tokens(&tokenizer);
        if added > max_length {
            return Err(Failure::SpecialTokens { max_length, added });
        }
        let mut tokenizer = tokenizer;
        set_padding(&mut tokenizer, max_length, true, pad_id, pad_token);
        set_truncation(&mut tokenizer, max_length)?;
        Ok(GemmaTokenizer { tokenizer, max_length })
    }

    pub fn max_length(&self) -> (r: usize)
        ensures
            r == self.length(),
    {
        self.max_length
    }

    /// Whether the same text always gives the same tokens.
    pub fn is_repeatable(&self) -> (r: bool)
        ensures
            r == !is_random(self.inner()),
    {
        !has_dropout(&self.tokenizer)
    }

    /// Whether these are tokens that a text gives, and which of them are not padding.
    pub open spec fn gives(&self, text: Seq<char>, ids: Seq<u32>, mask: Seq<u32>) -> bool {
        &&& is_random(self.inner()) || encoded(self.inner(), trimmed(text), true) == Some((ids, mask))
        &&& ids.len() == mask.len() == self.length()
    }

    /// Whether the tokenizer can split a text into its number of tokens.
    pub open spec fn splits(&self, text: Seq<char>) -> bool {
        encoded(self.inner(), trimmed(text), true) matches Some(e) && e.0.len() == e.1.len() == self.length()
    }

    /// Numbers as the single row of a tensor.
    pub open spec fn row(&self, values: Seq<u32>) -> TensorView {
        model::unsigned_integers(values, seq![1, self.length() as nat])
    }

    /// The tokens of a text, and one for each that is not padding: `(1, max_length)`.
    pub fn encode(&self, text: &str, device: &candle_core::Device) -> (r: Result<(Array, Array), Failure>)
        ensures
            r matches Ok(e) ==> exists|ids: Seq<u32>, mask: Seq<u32>| #[trigger]
                self.gives(text@, ids, mask) && e.0@ == self.row(ids) && e.1@ == self.row(mask),
            r matches Ok(e) ==> e.0.on_cpu() == array::is_main_memory(*device) && e.1.on_cpu()
                == array::is_main_memory(*device),
            !is_random(self.inner()) && array::is_main_memory(*device) && model::fits(seq![1, self.length() as nat]) ==> (
            r is Ok <==> self.splits(text@)),
            !is_random(self.inner()) && encoded(self.inner(), trimmed(text@), true) is None ==> (r matches Err(e)
                && e is Tokenizer),
    {
        proof {
            use_type_invariant(self);
        }
        let ghost text0 = text;
        let text = trim(text);
        let (ids, mask) = encode_text(&self.tokenizer, text, true)?;
        let ghost i = ids@;
        let ghost m = mask@;
        let dims: Vec<usize> = vec![1, self.max_length];
        let ghost d = seq![1, self.max_length as nat];
        assert(model::nats(dims@) =~= d);
        proof {
            lemma_row(self.max_length as nat);
        }
        let input_ids = Array::unsigned_integers(ids, &dims, device)?;
        let attention_mask = Array::unsigned_integers(mask, &dims, device)?;
        proof {
            assert(self.gives(text0@, i, m));
        }
        Ok((input_ids, attention_mask))
    }
}

} // verus!
