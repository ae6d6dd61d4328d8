//! CTC decoding: collapse a per-frame argmax id sequence into timestamped
//! text tokens.
//!
//! The id sequence is walked left to right with an `active` flag.  A blank
//! (id 0) arms the flag; the first non-blank, non-control id met while the
//! flag is armed emits a token and disarms it.  Control tokens (text starting
//! with `<|`) are suppressed and do not touch the flag.  Timestamps sit on a
//! 60 ms frame grid, shifted 30 ms left to centre on the frame and clamped
//! at zero.

use vstd::prelude::*;

verus! {

/// Milliseconds represented by one encoder output frame.
pub const FRAME_MS: u32 = 60;

/// Left shift applied to centre a timestamp on the middle of its frame.
pub const FRAME_CENTER_MS: u32 = 30;

/// A decoded text token with millisecond timestamps on the frame grid.
#[derive(Debug, Clone)]
pub struct Token {
    pub text: String,
    pub start: u32,
    pub end: u32,
}

/// Mathematical image of a [`Token`].
pub ghost struct TokenV {
    pub text: Seq<char>,
    pub start: int,
    pub end: int,
}

impl View for Token {
    type V = TokenV;

    open spec fn view(&self) -> TokenV {
        TokenV { text: self.text@, start: self.start as int, end: self.end as int }
    }
}

/// The linear projection applied ahead of `log_softmax` in the CTC head.
/// The projection's weights live with the tensor runtime; this records its
/// shape so the decoder can state what it expects of the argmax sequence.
#[derive(Debug)]
pub struct CTCLoss {
    pub odim: usize,
    pub encoder_output_size: usize,
    pub extra_linear: bool,
}

impl CTCLoss {
    /// Record the CTC head configuration: vocabulary size `odim`, encoder
    /// width, and whether an extra linear projection precedes the softmax.
    pub fn new(odim: usize, encoder_output_size: usize, extra_linear: bool) -> (r: Self)
        ensures
            r.odim == odim,
            r.encoder_output_size == encoder_output_size,
            r.extra_linear == extra_linear,
    {
        CTCLoss { odim, encoder_output_size, extra_linear }
    }
}

/// Text of a control token: it begins with the two characters `<|`.
pub open spec fn is_control(text: Seq<char>) -> bool {
    text.len() >= 2 && text[0] == '<' && text[1] == '|'
}

/// Every U+2581 glyph of a token's text is rendered as a space.
pub open spec fn render_text(text: Seq<char>) -> Seq<char> {
    text.map_values(
        |c: char|
            if c == '\u{2581}' {
                ' '
            } else {
                c
            },
    )
}

/// Timestamp of a frame index: `frame * 60 - 30`, clamped at zero.
pub open spec fn stamp_ms(frame: int) -> int {
    if frame * FRAME_MS - FRAME_CENTER_MS >= 0 {
        frame * FRAME_MS - FRAME_CENTER_MS
    } else {
        0
    }
}

/// The collapse walk from position `i` with flag `active` and the frame of
/// the previous emission `start`.
pub open spec fn collapse_from(
    ids: Seq<u32>,
    table: Seq<Seq<char>>,
    i: int,
    active: bool,
    start: int,
) -> Seq<TokenV>
    decreases ids.len() - i,
{
    if i < 0 || i >= ids.len() {
        Seq::empty()
    } else {
        let id = ids[i] as int;
        if 0 <= id < table.len() {
            let text = render_text(table[id]);
            if is_control(text) {
                collapse_from(ids, table, i + 1, active, start)
            } else if id == 0 {
                collapse_from(ids, table, i + 1, true, start)
            } else if !active {
                collapse_from(ids, table, i + 1, false, start)
            } else {
                seq![TokenV { text, start: stamp_ms(start), end: stamp_ms(i) }]
                    + collapse_from(ids, table, i + 1, false, i)
            }
        } else {
            collapse_from(ids, table, i + 1, active, start)
        }
    }
}

/// The tokens decoded from a whole argmax sequence.
pub open spec fn collapse(ids: Seq<u32>, table: Seq<Seq<char>>) -> Seq<TokenV> {
    collapse_from(ids, table, 0, true, 0)
}

/// Position `p` holds an id inside the table whose rendered text is not a
/// control token.  Only such positions move the collapse state: ids beyond
/// the table and control tokens are skipped without touching it.
pub open spec fn significant_at(ids: Seq<u32>, table: Seq<Seq<char>>, p: int) -> bool {
    &&& 0 <= p < ids.len()
    &&& ids[p] < table.len()
    &&& !is_control(render_text(table[ids[p] as int]))
}

/// A significant blank: it re-arms emission.
pub open spec fn blank_at(ids: Seq<u32>, table: Seq<Seq<char>>, p: int) -> bool {
    significant_at(ids, table, p) && ids[p] == 0
}

/// A significant non-blank id: armed, it emits; unarmed, it is collapsed.
pub open spec fn emitting_id_at(ids: Seq<u32>, table: Seq<Seq<char>>, p: int) -> bool {
    significant_at(ids, table, p) && ids[p] != 0
}

/// Emission is armed at `i`: every earlier significant non-blank id is
/// followed by at least one significant blank before `i` — or there has
/// been none at all.
pub open spec fn armed_at(ids: Seq<u32>, table: Seq<Seq<char>>, i: int) -> bool {
    forall|k: int|
        0 <= k < i && emitting_id_at(ids, table, k) ==> exists|m: int|
            k < m < i && blank_at(ids, table, m)
}

/// Position `i` begins a fresh emission: it holds a significant non-blank
/// id, and either no emission came before it or at least one blank stands
/// since the previous one.
pub open spec fn emission_boundary(ids: Seq<u32>, table: Seq<Seq<char>>, i: int) -> bool {
    emitting_id_at(ids, table, i) && armed_at(ids, table, i)
}

/// How many positions of the suffix from `i` begin a fresh emission.
pub open spec fn boundary_count_from(ids: Seq<u32>, table: Seq<Seq<char>>, i: int) -> nat
    decreases ids.len() - i,
{
    if i < 0 || i >= ids.len() {
        0
    } else {
        (if emission_boundary(ids, table, i) {
            1nat
        } else {
            0nat
        }) + boundary_count_from(ids, table, i + 1)
    }
}

/// How many positions of the whole sequence begin a fresh emission.
pub open spec fn boundary_count(ids: Seq<u32>, table: Seq<Seq<char>>) -> nat {
    boundary_count_from(ids, table, 0)
}

/// How one position moves the armed state: an insignificant position
/// leaves it, a significant blank arms it, a significant non-blank id
/// disarms it.
proof fn lemma_armed_step(ids: Seq<u32>, table: Seq<Seq<char>>, i: int)
    requires
        0 <= i < ids.len(),
    ensures
        !significant_at(ids, table, i) ==> (armed_at(ids, table, i + 1) <==> armed_at(
            ids,
            table,
            i,
        )),
        blank_at(ids, table, i) ==> armed_at(ids, table, i + 1),
        emitting_id_at(ids, table, i) ==> !armed_at(ids, table, i + 1),
{
    if !significant_at(ids, table, i) {
        if armed_at(ids, table, i) {
            assert forall|k: int|
                0 <= k < i + 1 && emitting_id_at(ids, table, k) implies exists|m: int|
                k < m < i + 1 && blank_at(ids, table, m) by {
                assert(k < i);
                let m = choose|m: int| k < m < i && blank_at(ids, table, m);
                assert(k < m < i + 1 && blank_at(ids, table, m));
            }
        }
        if armed_at(ids, table, i + 1) {
            assert forall|k: int|
                0 <= k < i && emitting_id_at(ids, table, k) implies exists|m: int|
                k < m < i && blank_at(ids, table, m) by {
                let m = choose|m: int| k < m < i + 1 && blank_at(ids, table, m);
                assert(m != i);
                assert(k < m < i && blank_at(ids, table, m));
            }
        }
    }
    if blank_at(ids, table, i) {
        assert forall|k: int|
            0 <= k < i + 1 && emitting_id_at(ids, table, k) implies exists|m: int|
            k < m < i + 1 && blank_at(ids, table, m) by {
            assert(k < i);
            assert(k < i < i + 1 && blank_at(ids, table, i));
        }
    }
    if emitting_id_at(ids, table, i) && armed_at(ids, table, i + 1) {
        let m = choose|m: int| i < m < i + 1 && blank_at(ids, table, m);
        assert(false);
    }
}

proof fn lemma_collapse_count_from(
    ids: Seq<u32>,
    table: Seq<Seq<char>>,
    i: int,
    active: bool,
    start: int,
)
    requires
        0 <= i <= ids.len(),
        active == armed_at(ids, table, i),
    ensures
        collapse_from(ids, table, i, active, start).len() == boundary_count_from(ids, table, i),
    decreases ids.len() - i,
{
    if i < ids.len() {
        lemma_armed_step(ids, table, i);
        let id = ids[i] as int;
        if 0 <= id < table.len() {
            let text = render_text(table[id]);
            if is_control(text) {
                lemma_collapse_count_from(ids, table, i + 1, active, start);
            } else if id == 0 {
                lemma_collapse_count_from(ids, table, i + 1, true, start);
            } else if !active {
                lemma_collapse_count_from(ids, table, i + 1, false, start);
            } else {
                lemma_collapse_count_from(ids, table, i + 1, false, i);
            }
        } else {
            lemma_collapse_count_from(ids, table, i + 1, active, start);
        }
    }
}

/// CTC collapsing law: the number of emitted tokens equals the number of
/// positions holding a significant non-blank id that either begins the
/// significant stream or follows at least one blank since the previous
/// emission; ids beyond the table and control tokens count for nothing
/// and do not reset the collapse state.
pub proof fn lemma_ctc_collapse_count(ids: Seq<u32>, table: Seq<Seq<char>>)
    ensures
        collapse(ids, table).len() == boundary_count(ids, table),
{
    lemma_collapse_count_from(ids, table, 0, true, 0);
}

proof fn lemma_collapse_no_control_from(
    ids: Seq<u32>,
    table: Seq<Seq<char>>,
    i: int,
    active: bool,
    start: int,
)
    ensures
        forall|j: int|
            0 <= j < collapse_from(ids, table, i, active, start).len()
                ==> !is_control(#[trigger] collapse_from(ids, table, i, active, start)[j].text),
    decreases ids.len() - i,
{
    if 0 <= i < ids.len() {
        let id = ids[i] as int;
        if 0 <= id < table.len() {
            let text = render_text(table[id]);
            if is_control(text) {
                lemma_collapse_no_control_from(ids, table, i + 1, active, start);
                assert(collapse_from(ids, table, i, active, start)
                    == collapse_from(ids, table, i + 1, active, start));
            } else if id == 0 {
                lemma_collapse_no_control_from(ids, table, i + 1, true, start);
                assert(collapse_from(ids, table, i, active, start)
                    == collapse_from(ids, table, i + 1, true, start));
            } else if !active {
                lemma_collapse_no_control_from(ids, table, i + 1, false, start);
                assert(collapse_from(ids, table, i, active, start)
                    == collapse_from(ids, table, i + 1, false, start));
            } else {
                lemma_collapse_no_control_from(ids, table, i + 1, false, i);
                let head = TokenV { text, start: stamp_ms(start), end: stamp_ms(i) };
                let rest = collapse_from(ids, table, i + 1, false, i);
                let whole = collapse_from(ids, table, i, active, start);
                assert(whole == seq![head] + rest);
                assert forall|j: int| 0 <= j < whole.len() implies !is_control(
                    #[trigger] whole[j].text,
                ) by {
                    if j == 0 {
                        assert(whole[0] == head);
                    } else {
                        assert(whole[j] == rest[j - 1]);
                    }
                }
            }
        } else {
            lemma_collapse_no_control_from(ids, table, i + 1, active, start);
            assert(collapse_from(ids, table, i, active, start)
                == collapse_from(ids, table, i + 1, active, start));
        }
    }
}

/// Control-token suppression law: a token whose text begins with `<|` never
/// appears in the decoded output, whatever the ids and the table.
pub proof fn lemma_ctc_no_control_tokens(ids: Seq<u32>, table: Seq<Seq<char>>)
    ensures
        forall|j: int|
            0 <= j < collapse(ids, table).len()
                ==> !is_control(#[trigger] collapse(ids, table)[j].text),
{
    lemma_collapse_no_control_from(ids, table, 0, true, 0);
}

/// The clamped frame timestamp is monotone in the frame index.
proof fn lemma_stamp_monotone(a: int, b: int)
    requires
        a <= b,
    ensures
        stamp_ms(a) <= stamp_ms(b),
{
}

proof fn lemma_collapse_stamps_from(
    ids: Seq<u32>,
    table: Seq<Seq<char>>,
    i: int,
    active: bool,
    start: int,
)
    requires
        0 <= start <= i,
    ensures
        forall|j: int|
            0 <= j < collapse_from(ids, table, i, active, start).len() ==> {
                let t = #[trigger] collapse_from(ids, table, i, active, start)[j];
                &&& stamp_ms(start) <= t.start <= t.end
                &&& stamp_ms(i) <= t.end <= stamp_ms(ids.len() - 1)
            },
        forall|j: int, k: int|
            #![trigger collapse_from(ids, table, i, active, start)[j], collapse_from(ids, table, i, active, start)[k]]
            0 <= j <= k < collapse_from(ids, table, i, active, start).len()
                ==> collapse_from(ids, table, i, active, start)[j].end
                    <= collapse_from(ids, table, i, active, start)[k].end,
    decreases ids.len() - i,
{
    if 0 <= i < ids.len() {
        let id = ids[i] as int;
        if 0 <= id < table.len() {
            let text = render_text(table[id]);
            if is_control(text) {
                lemma_collapse_stamps_from(ids, table, i + 1, active, start);
                lemma_stamp_monotone(i, i + 1);
                assert(collapse_from(ids, table, i, active, start)
                    == collapse_from(ids, table, i + 1, active, start));
            } else if id == 0 {
                lemma_collapse_stamps_from(ids, table, i + 1, true, start);
                lemma_stamp_monotone(i, i + 1);
                assert(collapse_from(ids, table, i, active, start)
                    == collapse_from(ids, table, i + 1, true, start));
            } else if !active {
                lemma_collapse_stamps_from(ids, table, i + 1, false, start);
                lemma_stamp_monotone(i, i + 1);
                assert(collapse_from(ids, table, i, active, start)
                    == collapse_from(ids, table, i + 1, false, start));
            } else {
                lemma_collapse_stamps_from(ids, table, i + 1, false, i);
                lemma_stamp_monotone(start, i);
                lemma_stamp_monotone(i, i + 1);
                lemma_stamp_monotone(i, ids.len() - 1);
                let head = TokenV { text, start: stamp_ms(start), end: stamp_ms(i) };
                let rest = collapse_from(ids, table, i + 1, false, i);
                let whole = collapse_from(ids, table, i, active, start);
                assert(whole == seq![head] + rest);
                assert forall|j: int| 0 <= j < whole.len() implies {
                    let t = #[trigger] whole[j];
                    &&& stamp_ms(start) <= t.start <= t.end
                    &&& stamp_ms(i) <= t.end <= stamp_ms(ids.len() - 1)
                } by {
                    if j == 0 {
                        assert(whole[0] == head);
                    } else {
                        assert(whole[j] == rest[j - 1]);
                    }
                }
                assert forall|j: int, k: int|
                    #![trigger whole[j], whole[k]]
                    0 <= j <= k < whole.len() implies whole[j].end <= whole[k].end by {
                    if j == 0 {
                        assert(whole[0] == head);
                        if k > 0 {
                            assert(whole[k] == rest[k - 1]);
                        }
                    } else {
                        assert(whole[j] == rest[j - 1]);
                        assert(whole[k] == rest[k - 1]);
                    }
                }
            }
        } else {
            lemma_collapse_stamps_from(ids, table, i + 1, active, start);
            lemma_stamp_monotone(i, i + 1);
            assert(collapse_from(ids, table, i, active, start)
                == collapse_from(ids, table, i + 1, active, start));
        }
    }
}

/// Timestamp law: decoded `end` values lie between 0 and
/// `(frames - 1) * 60` milliseconds and are non-decreasing along the
/// output; each token closes no earlier than it opens.
pub proof fn lemma_ctc_timestamps(ids: Seq<u32>, table: Seq<Seq<char>>)
    ensures
        forall|j: int|
            0 <= j < collapse(ids, table).len() ==> {
                let t = #[trigger] collapse(ids, table)[j];
                &&& 0 <= t.start <= t.end
                &&& t.end <= stamp_ms(ids.len() - 1)
                &&& t.end <= (ids.len() - 1) * FRAME_MS
            },
        forall|j: int, k: int|
            #![trigger collapse(ids, table)[j], collapse(ids, table)[k]]
            0 <= j <= k < collapse(ids, table).len()
                ==> collapse(ids, table)[j].end <= collapse(ids, table)[k].end,
{
    lemma_collapse_stamps_from(ids, table, 0, true, 0);
    assert forall|j: int| 0 <= j < collapse(ids, table).len() implies {
        let t = #[trigger] collapse(ids, table)[j];
        &&& 0 <= t.start <= t.end
        &&& t.end <= stamp_ms(ids.len() - 1)
        &&& t.end <= (ids.len() - 1) * FRAME_MS
    } by {
        assert(stamp_ms(0) == 0);
        assert(stamp_ms(ids.len() - 1) <= (ids.len() - 1) * FRAME_MS);
    }
}

/// Render a token's text: every U+2581 becomes a space.
fn render_token_text(text: &String) -> (r: String)
    ensures
        r@ == render_text(text@),
{
    let n = text.as_str().unicode_len();
    let mut r = String::new();
    let mut i: usize = 0;
    proof {
        assert(r@ =~= render_text(text@).take(0));
    }
    while i < n
        invariant
            n == text@.len(),
            i <= n,
            r@ == render_text(text@).take(i as int),
        decreases n - i,
    {
        let c = text.as_str().get_char(i);
        if c == '\u{2581}' {
            r.append(" ");
            proof {
                reveal_strlit(" ");
                assert(r@ =~= render_text(text@).take(i + 1));
            }
        } else {
            let piece = text.as_str().substring_char(i, i + 1);
            r.append(piece);
            proof {
                assert(r@ =~= render_text(text@).take(i + 1));
            }
        }
        i = i + 1;
    }
    proof {
        assert(render_text(text@).take(n as int) =~= render_text(text@));
    }
    r
}

/// Does the rendered text mark a control token?
fn is_control_text(text: &String) -> (r: bool)
    ensures
        r == is_control(text@),
{
    let n = text.as_str().unicode_len();
    n >= 2 && text.as_str().get_char(0) == '<' && text.as_str().get_char(1) == '|'
}

/// Clamped frame timestamp in milliseconds.
fn stamp(frame: u32) -> (r: u32)
    requires
        frame * FRAME_MS <= u32::MAX,
    ensures
        r == stamp_ms(frame as int),
{
    if frame == 0 {
        0
    } else {
        frame * FRAME_MS - FRAME_CENTER_MS
    }
}

/// Collapse an argmax id sequence into timestamped tokens.
///
/// Ids outside the table are skipped; blanks (id 0) re-arm emission; a
/// non-blank id emits only if armed; control tokens never appear in the
/// output.
pub fn decode_ids(ids: &Vec<u32>, table: &Vec<String>) -> (out: Vec<Token>)
    requires
        ids@.len() * FRAME_MS <= u32::MAX,
    ensures
        out@.map_values(|t: Token| t@) == collapse(ids@, table.deep_view()),
{
    let ghost tv = table.deep_view();
    let mut out: Vec<Token> = Vec::new();
    let mut active: bool = true;
    let mut start: u32 = 0;
    let mut i: usize = 0;
    proof {
        assert(out@.map_values(|t: Token| t@) =~= Seq::<TokenV>::empty());
    }
    while i < ids.len()
        invariant
            ids@.len() * FRAME_MS <= u32::MAX,
            i <= ids@.len(),
            start <= i,
            tv == table.deep_view(),
            collapse(ids@, tv) == out@.map_values(|t: Token| t@)
                + collapse_from(ids@, tv, i as int, active, start as int),
        decreases ids@.len() - i,
    {
        let id = ids[i];
        if (id as usize) < table.len() {
            let text = render_token_text(&table[id as usize]);
            proof {
                assert(table.deep_view()[id as int] == table@[id as int]@);
            }
            if is_control_text(&text) {
                // suppressed control token
            } else if id == 0 {
                active = true;
            } else if !active {
                // still inside a collapsed run
            } else {
                let open = stamp(start);
                let close = stamp(i as u32);
                let ghost prev = out@.map_values(|t: Token| t@);
                out.push(Token { text, start: open, end: close });
                proof {
                    assert(out@.map_values(|t: Token| t@) =~= prev
                        + seq![TokenV {
                            text: render_text(tv[ids@[i as int] as int]),
                            start: stamp_ms(start as int),
                            end: stamp_ms(i as int),
                        }]);
                }
                start = i as u32;
                active = false;
            }
        }
        i = i + 1;
    }
    out
}

} // verus!
