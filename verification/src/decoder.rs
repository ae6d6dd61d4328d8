//! The token-table decoder: a CTC head plus the vocabulary loaded from the
//! model's `tokens.json`, a JSON array of strings.

use vstd::prelude::*;

use crate::ctc::{collapse, decode_ids, CTCLoss, Token, TokenV, FRAME_MS};

verus! {

/// What `tokens.json` parses to: `Some` of the string list when the text is
/// a JSON array of strings, `None` otherwise.  The outcome depends on the
/// text alone.
pub uninterp spec fn json_string_list(s: Seq<char>) -> Option<Seq<Seq<char>>>;

/// Relies on serde_json::from_str::<Vec<String>>: deserializing a JSON
/// array of strings succeeds or fails on the input text alone.
#[verifier::external_body]
fn parse_string_list(s: &str) -> (r: Option<Vec<String>>)
    ensures
        r matches Some(v) ==> json_string_list(s@) == Some(v.deep_view()),
        r is None ==> json_string_list(s@) is None,
{
    serde_json::from_str::<Vec<String>>(s).ok()
}

/// The token table was not a JSON array of strings.
#[derive(Debug, Clone, PartialEq, Eq, Structural)]
pub enum TokenTableError {
    InvalidTokenTable,
}

/// The CTC decoder: head configuration plus the vocabulary table.
#[derive(Debug)]
pub struct Decoder {
    pub ctc: CTCLoss,
    pub tokens: Vec<String>,
}

/// Concatenation of the texts of a token sequence.
pub open spec fn concat_texts(tokens: Seq<TokenV>) -> Seq<char>
    decreases tokens.len(),
{
    if tokens.len() == 0 {
        Seq::empty()
    } else {
        concat_texts(tokens.drop_last()) + tokens.last().text
    }
}

impl Decoder {
    /// Build a decoder from the text of `tokens.json`.  Succeeds exactly
    /// when the text is a JSON array of strings; the table then holds those
    /// strings in order.
    pub fn new(tokens_json: &str, vocab_size: usize, encoder_output_size: usize) -> (r: Result<
        Decoder,
        TokenTableError,
    >)
        ensures
            r matches Ok(d) ==> {
                &&& json_string_list(tokens_json@) == Some(d.tokens.deep_view())
                &&& d.ctc.odim == vocab_size
                &&& d.ctc.encoder_output_size == encoder_output_size
                &&& d.ctc.extra_linear
            },
            r is Err <==> json_string_list(tokens_json@) is None,
    {
        match parse_string_list(tokens_json) {
            Some(tokens) => {
                let ctc = CTCLoss::new(vocab_size, encoder_output_size, true);
                Ok(Decoder { ctc, tokens })
            },
            None => Err(TokenTableError::InvalidTokenTable),
        }
    }

    /// Collapse an argmax id sequence against this decoder's table.
    pub fn decode(&self, ids: &Vec<u32>) -> (out: Vec<Token>)
        requires
            ids@.len() * FRAME_MS <= u32::MAX,
        ensures
            out@.map_values(|t: Token| t@) == collapse(ids@, self.tokens.deep_view()),
    {
        decode_ids(ids, &self.tokens)
    }
}

/// Concatenate the texts of decoded tokens into one transcript string.
pub fn transcript(tokens: &Vec<Token>) -> (r: String)
    ensures
        r@ == concat_texts(tokens@.map_values(|t: Token| t@)),
{
    let ghost tv = tokens@.map_values(|t: Token| t@);
    let mut r = String::new();
    let mut i: usize = 0;
    proof {
        assert(tv.take(0) =~= Seq::<TokenV>::empty());
    }
    while i < tokens.len()
        invariant
            i <= tokens@.len(),
            tv == tokens@.map_values(|t: Token| t@),
            r@ == concat_texts(tv.take(i as int)),
        decreases tokens@.len() - i,
    {
        r.append(tokens[i].text.as_str());
        proof {
            assert(tv.take(i + 1).drop_last() =~= tv.take(i as int));
            assert(tv.take(i + 1).last() == tv[i as int]);
        }
        i = i + 1;
    }
    proof {
        assert(tv.take(tokens@.len() as int) =~= tv);
    }
    r
}

} // verus!
