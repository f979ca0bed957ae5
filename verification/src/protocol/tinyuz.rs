//! Minimal tinyuz compressor for LED RGB frame data, and the matching
//! decompressor.
//!
//! The compressed stream is a 4-byte little-endian dictionary size followed
//! by an interleaving of whole bytes and single "type" bits. Type bits are
//! packed LSB-first into a byte that is reserved in the stream at the point
//! where the first bit of a fresh group of eight is written. The stream is
//! modelled here as a sequence of tokens (`Tok`) and the bytes they lay out
//! (`put_all`).
use vstd::prelude::*;

verus! {

pub const MIN_DICT_MATCH_LEN: usize = 2;

pub const MIN_LITERAL_LEN: usize = 15;

pub const MAX_TYPE_BIT_COUNT: usize = 8;

/// Above this saved position a match is stored with its length minus one.
pub const BIG_POS_FOR_LEN: usize = 2687;

pub const CTRL_LITERAL_LINE: usize = 1;

pub const CTRL_STREAM_END: usize = 3;

/// Longest match that the compressor looks for.
pub const MAX_MATCH_LEN: usize = 258;

/// One unit of the compressed stream: a type bit or a whole byte.
pub enum Tok {
    Bit(bool),
    Byte(u8),
}

/// The bytes laid out so far, where the current type byte is (`idx`), and
/// how many of its bits are used (`count`, 0 meaning none reserved).
pub struct Layout {
    pub code: Seq<u8>,
    pub idx: int,
    pub count: nat,
}

/// The dictionary-position state that both ends of the stream keep: the
/// last saved position and whether literal data came since the last match.
pub struct Codec {
    pub back: nat,
    pub have: bool,
}

/// `2^c` for a bit position inside a byte.
pub open spec fn weight(c: nat) -> nat {
    if c == 0 { 1 }
    else if c == 1 { 2 }
    else if c == 2 { 4 }
    else if c == 3 { 8 }
    else if c == 4 { 16 }
    else if c == 5 { 32 }
    else if c == 6 { 64 }
    else { 128 }
}

pub open spec fn empty_layout() -> Layout {
    Layout { code: Seq::empty(), idx: 0, count: 0 }
}

/// A layout is well formed when the bits of the current type byte above
/// `count` are still clear.
pub open spec fn layout_wf(l: Layout) -> bool {
    &&& l.count < 8
    &&& l.count > 0 ==> 0 <= l.idx < l.code.len() && l.code[l.idx] < weight(l.count)
}

/// Lays out one token: a byte is appended; a bit goes into the current type
/// byte, reserving a new one at the end when none is open.
pub open spec fn put(l: Layout, t: Tok) -> Layout {
    match t {
        Tok::Byte(x) => Layout { code: l.code.push(x), idx: l.idx, count: l.count },
        Tok::Bit(b) => {
            let code = if l.count == 0 { l.code.push(0u8) } else { l.code };
            let idx = if l.count == 0 { l.code.len() as int } else { l.idx };
            let v = code[idx] + if b { weight(l.count) } else { 0 };
            Layout {
                code: code.update(idx, v as u8),
                idx,
                count: if l.count == 7 { 0 } else { l.count + 1 },
            }
        },
    }
}

/// Lays out a sequence of tokens in order.
pub open spec fn put_all(l: Layout, ts: Seq<Tok>) -> Layout
    decreases ts.len(),
{
    if ts.len() == 0 {
        l
    } else {
        put_all(put(l, ts[0]), ts.drop_first())
    }
}

/// The bits of one digit of a variable-length number, least significant first.
pub open spec fn digit_toks(d: nat, pack_bit: nat) -> Seq<Tok> {
    if pack_bit == 1 {
        seq![Tok::Bit(d % 2 == 1)]
    } else {
        seq![Tok::Bit(d % 2 == 1), Tok::Bit((d / 2) % 2 == 1)]
    }
}

/// The base of a variable-length number with `pack_bit` data bits per group.
pub open spec fn pack_base(pack_bit: nat) -> nat {
    if pack_bit == 1 { 2 } else { 4 }
}

/// A variable-length number: groups of `pack_bit` data bits, most
/// significant group first, each followed by a continuation bit that is set
/// when another group follows (`more` for the last group). Every group but
/// the last counts one more than its digits say.
pub open spec fn len_toks(v: nat, pack_bit: nat, more: bool) -> Seq<Tok>
    decreases v,
{
    let b = pack_base(pack_bit);
    if v < b {
        digit_toks(v, pack_bit) + seq![Tok::Bit(more)]
    } else {
        len_toks(((v - b) / b as int) as nat, pack_bit, true) + digit_toks(
            ((v - b) % b as int) as nat,
            pack_bit,
        ) + seq![Tok::Bit(more)]
    }
}

/// A match length (1 data bit per group).
pub open spec fn dict_len_toks(v: nat) -> Seq<Tok> {
    len_toks(v, 1, false)
}

/// A position extension or literal-line length (2 data bits per group).
pub open spec fn pos_len_toks(v: nat) -> Seq<Tok> {
    len_toks(v, 2, false)
}

/// A saved dictionary position: one byte below 128, otherwise a byte with
/// the low 7 bits of `pos - 128` and the high bit set, then the rest.
pub open spec fn pos_toks(pos: nat) -> Seq<Tok> {
    if pos >= 128 {
        seq![Tok::Byte(((pos - 128) % 128 + 128) as u8)] + pos_len_toks(
            ((pos - 128) / 128) as nat,
        )
    } else {
        seq![Tok::Byte(pos as u8)]
    }
}

/// A control code: a match token with saved position 0.
pub open spec fn ctrl_toks(ctrl: nat, have: bool) -> Seq<Tok> {
    seq![Tok::Bit(false)] + dict_len_toks(ctrl) + (if have {
        seq![Tok::Bit(false)]
    } else {
        Seq::empty()
    }) + pos_toks(0)
}

/// Whole bytes, in order.
pub open spec fn bytes_toks(s: Seq<u8>) -> Seq<Tok>
    decreases s.len(),
{
    if s.len() == 0 {
        Seq::empty()
    } else {
        bytes_toks(s.drop_last()) + seq![Tok::Byte(s.last())]
    }
}

/// Literal bytes one at a time, each after a set type bit.
pub open spec fn lit_toks(s: Seq<u8>) -> Seq<Tok>
    decreases s.len(),
{
    if s.len() == 0 {
        Seq::empty()
    } else {
        lit_toks(s.drop_last()) + seq![Tok::Bit(true), Tok::Byte(s.last())]
    }
}

/// A run of literal bytes: 15 or more as a literal line, fewer one by one.
pub open spec fn data_toks(s: Seq<u8>, have: bool) -> Seq<Tok> {
    if s.len() >= MIN_LITERAL_LEN {
        ctrl_toks(CTRL_LITERAL_LINE as nat, have) + pos_len_toks((s.len() - MIN_LITERAL_LEN) as nat)
            + bytes_toks(s)
    } else {
        lit_toks(s)
    }
}

/// Whether a match is stored with its length minus one.
pub open spec fn len_reduced(saved: nat, st: Codec) -> bool {
    !(st.back == saved && st.have) && saved > BIG_POS_FOR_LEN
}

/// A match of `match_len` bytes at saved position `saved` (the distance).
pub open spec fn dict_toks(match_len: nat, saved: nat, st: Codec) -> Seq<Tok> {
    let same = st.back == saved && st.have;
    let len = match_len - MIN_DICT_MATCH_LEN - if len_reduced(saved, st) { 1int } else { 0int };
    seq![Tok::Bit(false)] + dict_len_toks(len as nat) + (if st.have {
        seq![Tok::Bit(same)]
    } else {
        Seq::empty()
    }) + (if !same {
        pos_toks(saved)
    } else {
        Seq::empty()
    })
}

/// The end-of-stream control.
pub open spec fn end_toks(have: bool) -> Seq<Tok> {
    ctrl_toks(CTRL_STREAM_END as nat, have)
}

/// The 4-byte little-endian dictionary size.
pub open spec fn header_toks(dict_size: nat) -> Seq<Tok> {
    seq![
        Tok::Byte((dict_size % 256) as u8),
        Tok::Byte((dict_size / 256 % 256) as u8),
        Tok::Byte((dict_size / 65536 % 256) as u8),
        Tok::Byte((dict_size / 16777216 % 256) as u8),
    ]
}

// ---------------------------------------------------------------------------
// Match finding
/// How far the bytes at `pos` repeat the bytes `dist` back (the source may
/// overlap the bytes being matched), counting from `k`, up to `max_match`.
pub open spec fn ext_len(data: Seq<u8>, pos: nat, dist: nat, max_match: nat, k: nat) -> nat
    decreases max_match - k,
{
    if k < max_match && data[(pos + k) as int] == data[pos - dist + (k % dist) as int] {
        ext_len(data, pos, dist, max_match, k + 1)
    } else {
        k
    }
}

/// Scans the distances from `dist` to `max_lookback` for a longer match than
/// `best` (length, distance); stops early at a match of `max_match` bytes.
pub open spec fn scan(
    data: Seq<u8>,
    pos: nat,
    max_lookback: nat,
    max_match: nat,
    dist: nat,
    best: (nat, nat),
) -> (nat, nat)
    decreases max_lookback + 1 - dist,
{
    if dist > max_lookback || dist == 0 {
        best
    } else {
        let len = ext_len(data, pos, dist, max_match, 0);
        if len > best.0 && len >= MIN_DICT_MATCH_LEN {
            if len == max_match {
                (len, dist)
            } else {
                scan(data, pos, max_lookback, max_match, dist + 1, (len, dist))
            }
        } else {
            scan(data, pos, max_lookback, max_match, dist + 1, best)
        }
    }
}

/// The match the compressor takes at `pos`: the longest (at most 258 bytes)
/// over distances up to `min(pos, dict_size)`, the nearest among equals;
/// `(0, 0)` when there is nothing to look back at.
pub open spec fn best_match(data: Seq<u8>, pos: nat, dict_size: nat) -> (nat, nat) {
    let max_lookback = if pos < dict_size { pos } else { dict_size };
    let remaining = (data.len() - pos) as nat;
    let max_match = if remaining < MAX_MATCH_LEN { remaining } else { MAX_MATCH_LEN as nat };
    if max_lookback == 0 {
        (0, 0)
    } else {
        scan(data, pos, max_lookback, max_match, 1, (0, 0))
    }
}

// ---------------------------------------------------------------------------
// The compressed token stream
/// Literal bytes `data[lit..upto]` still to be written, and the state after.
pub open spec fn flush_toks(data: Seq<u8>, lit: nat, upto: nat, st: Codec) -> (Seq<Tok>, Codec) {
    if lit < upto {
        (data_toks(data.subrange(lit as int, upto as int), st.have), Codec { back: st.back, have: true })
    } else {
        (Seq::empty(), st)
    }
}

/// Prefixes `p` to an optional token sequence.
pub open spec fn opt_prefix(p: Seq<Tok>, o: Option<Seq<Tok>>) -> Option<Seq<Tok>> {
    match o {
        Some(r) => Some(p + r),
        None => None,
    }
}

/// The tokens that greedy compression of `data` writes from `pos` on, with
/// literals pending from `lit` and state `st`; `None` when it reaches a
/// 2-byte match that would have to be stored with a length below zero.
pub open spec fn greedy(data: Seq<u8>, dict_size: nat, pos: nat, lit: nat, st: Codec) -> Option<
    Seq<Tok>,
>
    decreases data.len() - pos,
{
    if pos >= data.len() {
        let f = flush_toks(data, lit, data.len(), st);
        Some(f.0 + end_toks(f.1.have))
    } else {
        let m = best_match(data, pos, dict_size);
        if m.0 >= MIN_DICT_MATCH_LEN && m.0 + pos <= data.len() {
            let f = flush_toks(data, lit, pos, st);
            if m.0 == MIN_DICT_MATCH_LEN && len_reduced(m.1, f.1) {
                None
            } else {
                opt_prefix(
                    f.0 + dict_toks(m.0, m.1, f.1),
                    greedy(data, dict_size, pos + m.0, pos + m.0, Codec { back: m.1, have: false }),
                )
            }
        } else {
            greedy(data, dict_size, pos + 1, lit, st)
        }
    }
}

pub open spec fn initial_codec() -> Codec {
    Codec { back: 1, have: false }
}

/// Whether greedy compression of `data` goes through.
pub open spec fn compressible(data: Seq<u8>, dict_size: nat) -> bool {
    greedy(data, dict_size, 0, 0, initial_codec()) is Some
}

/// The compressed form of `data`.
pub open spec fn tuz_compressed(data: Seq<u8>, dict_size: nat) -> Seq<u8> {
    put_all(
        empty_layout(),
        header_toks(dict_size) + greedy(data, dict_size, 0, 0, initial_codec())->0,
    ).code
}

// ---------------------------------------------------------------------------
// Lemmas on the layout
pub proof fn lemma_put_all_concat(l: Layout, a: Seq<Tok>, b: Seq<Tok>)
    ensures
        put_all(l, a + b) == put_all(put_all(l, a), b),
    decreases a.len(),
{
    if a.len() == 0 {
        assert(a + b =~= b);
    } else {
        assert((a + b).drop_first() =~= a.drop_first() + b);
        lemma_put_all_concat(put(l, a[0]), a.drop_first(), b);
    }
}

pub proof fn lemma_put_wf(l: Layout, t: Tok)
    requires
        layout_wf(l),
    ensures
        layout_wf(put(l, t)),
{
    match t {
        Tok::Byte(x) => {},
        Tok::Bit(b) => {
            let code = if l.count == 0 { l.code.push(0u8) } else { l.code };
            let idx = if l.count == 0 { l.code.len() as int } else { l.idx };
            assert(code[idx] < weight(l.count));
            assert(code[idx] + weight(l.count) < weight(l.count + 1) || l.count == 7);
        },
    }
}

pub proof fn lemma_put_all_wf(l: Layout, ts: Seq<Tok>)
    requires
        layout_wf(l),
    ensures
        layout_wf(put_all(l, ts)),
    decreases ts.len(),
{
    if ts.len() > 0 {
        lemma_put_wf(l, ts[0]);
        lemma_put_all_wf(put(l, ts[0]), ts.drop_first());
    }
}

pub proof fn lemma_put_all_one(l: Layout, t: Tok)
    ensures
        put_all(l, seq![t]) == put(l, t),
{
    assert(seq![t].drop_first() =~= Seq::<Tok>::empty());
    assert(put_all(put(l, t), seq![t].drop_first()) == put(l, t));
}

pub proof fn lemma_put_all_bytes(l: Layout, s: Seq<u8>)
    ensures
        put_all(l, bytes_toks(s)) == (Layout { code: l.code + s, idx: l.idx, count: l.count }),
    decreases s.len(),
{
    if s.len() == 0 {
        assert(l.code + s =~= l.code);
    } else {
        lemma_put_all_bytes(l, s.drop_last());
        lemma_put_all_concat(l, bytes_toks(s.drop_last()), seq![Tok::Byte(s.last())]);
        lemma_put_all_one(put_all(l, bytes_toks(s.drop_last())), Tok::Byte(s.last()));
        assert(l.code + s.drop_last() + seq![s.last()] =~= l.code + s);
        assert(l.code + s.drop_last() + seq![s.last()] =~= (l.code + s.drop_last()).push(s.last()));
    }
}

/// `cur | (b << c)` adds `b * 2^c` when the bits of `cur` from `c` up are clear.
proof fn lemma_or_bit(cur: u8, b: u8, c: u8)
    requires
        c < 8,
        b <= 1,
        cur < weight(c as nat),
    ensures
        (cur | (b << c)) as int == cur + b * weight(c as nat),
{
    if c == 0 {
        assert(cur < 1 && b <= 1 ==> (cur | (b << 0u8)) == cur + b) by (bit_vector);
    } else if c == 1 {
        assert(cur < 2 && b <= 1 ==> (cur | (b << 1u8)) == cur + b * 2) by (bit_vector);
    } else if c == 2 {
        assert(cur < 4 && b <= 1 ==> (cur | (b << 2u8)) == cur + b * 4) by (bit_vector);
    } else if c == 3 {
        assert(cur < 8 && b <= 1 ==> (cur | (b << 3u8)) == cur + b * 8) by (bit_vector);
    } else if c == 4 {
        assert(cur < 16 && b <= 1 ==> (cur | (b << 4u8)) == cur + b * 16) by (bit_vector);
    } else if c == 5 {
        assert(cur < 32 && b <= 1 ==> (cur | (b << 5u8)) == cur + b * 32) by (bit_vector);
    } else if c == 6 {
        assert(cur < 64 && b <= 1 ==> (cur | (b << 6u8)) == cur + b * 64) by (bit_vector);
    } else {
        assert(cur < 128 && b <= 1 ==> (cur | (b << 7u8)) == cur + b * 128) by (bit_vector);
    }
}

// ---------------------------------------------------------------------------
// The encoder
/// Bitstream writer that packs type bits into bytes (LSB-first).
struct TuzEncoder {
    code: Vec<u8>,
    types_index: usize,
    type_count: usize,
    dict_pos_back: usize,
    is_have_data_back: bool,
    is_need_literal_line: bool,
}

impl TuzEncoder {
    spec fn layout(&self) -> Layout {
        Layout { code: self.code@, idx: self.types_index as int, count: self.type_count as nat }
    }

    spec fn codec(&self) -> Codec {
        Codec { back: self.dict_pos_back as nat, have: self.is_have_data_back }
    }

    spec fn wf(&self) -> bool {
        &&& layout_wf(self.layout())
        &&& self.is_need_literal_line
    }

    fn new(is_need_literal_line: bool) -> (e: Self)
        ensures
            e.layout() == empty_layout(),
            e.codec() == initial_codec(),
            e.is_need_literal_line == is_need_literal_line,
            layout_wf(e.layout()),
    {
        TuzEncoder {
            code: Vec::new(),
            types_index: 0,
            type_count: 0,
            dict_pos_back: 1,
            is_have_data_back: false,
            is_need_literal_line,
        }
    }

    /// Little-endian, 4 bytes.
    fn out_dict_size(&mut self, dict_size: usize)
        requires
            old(self).wf(),
        ensures
            final(self).wf(),
            final(self).codec() == old(self).codec(),
            final(self).layout() == put_all(old(self).layout(), header_toks(dict_size as nat)),
    {
        let b0 = (dict_size % 256) as u8;
        let b1 = (dict_size / 256 % 256) as u8;
        let b2 = (dict_size / 65536 % 256) as u8;
        let b3 = (dict_size / 16777216 % 256) as u8;
        let ghost l0 = self.layout();
        self.code.push(b0);
        self.code.push(b1);
        self.code.push(b2);
        self.code.push(b3);
        proof {
            let s = seq![b0, b1, b2, b3];
            assert(header_toks(dict_size as nat) =~= bytes_toks(s)) by {
                reveal_with_fuel(bytes_toks, 5);
                assert(s.drop_last().drop_last().drop_last().drop_last() =~= Seq::<u8>::empty());
                assert(s.drop_last().drop_last().drop_last() =~= seq![b0]);
                assert(s.drop_last().drop_last() =~= seq![b0, b1]);
                assert(s.drop_last() =~= seq![b0, b1, b2]);
            }
            lemma_put_all_bytes(l0, s);
            assert(self.code@ =~= l0.code + s);
        }
    }

    #[verifier::spinoff_prover]
    fn out_type(&mut self, bit: usize)
        requires
            old(self).wf(),
            bit <= 1,
        ensures
            final(self).wf(),
            final(self).codec() == old(self).codec(),
            final(self).layout() == put(old(self).layout(), Tok::Bit(bit == 1)),
    {
        if self.type_count == 0 {
            self.types_index = self.code.len();
            self.code.push(0);
        }
        let idx = self.types_index;
        let cur = self.code[idx];
        proof {
            lemma_or_bit(cur, bit as u8, self.type_count as u8);
        }
        self.code.set(idx, cur | ((bit as u8) << (self.type_count as u8)));
        self.type_count = self.type_count + 1;
        if self.type_count == MAX_TYPE_BIT_COUNT {
            self.type_count = 0;
        }
        proof {
            let l = old(self).layout();
            assert(self.code@ =~= put(l, Tok::Bit(bit == 1)).code);
            lemma_put_wf(l, Tok::Bit(bit == 1));
        }
    }

    /// The bits of one digit, least significant first.
    fn out_digit(&mut self, d: usize, pack_bit: usize)
        requires
            old(self).wf(),
            pack_bit == 1 || pack_bit == 2,
            d < pack_base(pack_bit as nat),
        ensures
            final(self).wf(),
            final(self).codec() == old(self).codec(),
            final(self).layout() == put_all(old(self).layout(), digit_toks(d as nat, pack_bit as nat)),
    {
        let ghost l0 = self.layout();
        self.out_type(d % 2);
        proof { lemma_put_all_one(l0, Tok::Bit(d % 2 == 1)); }
        if pack_bit == 2 {
            let ghost l1 = self.layout();
            self.out_type((d / 2) % 2);
            proof {
                lemma_put_all_one(l1, Tok::Bit((d / 2) % 2 == 1));
                lemma_put_all_concat(l0, seq![Tok::Bit(d % 2 == 1)], seq![Tok::Bit((d / 2) % 2 == 1)]);
                assert(seq![Tok::Bit(d % 2 == 1)] + seq![Tok::Bit((d / 2) % 2 == 1)] =~= digit_toks(
                    d as nat,
                    pack_bit as nat,
                ));
            }
        }
    }

    /// The groups of a variable-length number; `more` is the continuation
    /// bit after its last group.
    fn out_len_groups(&mut self, v: usize, pack_bit: usize, more: bool)
        requires
            old(self).wf(),
            pack_bit == 1 || pack_bit == 2,
        ensures
            final(self).wf(),
            final(self).codec() == old(self).codec(),
            final(self).layout() == put_all(old(self).layout(), len_toks(v as nat, pack_bit as nat, more)),
        decreases v,
    {
        let base: usize = if pack_bit == 1 { 2 } else { 4 };
        let ghost l0 = self.layout();
        if v < base {
            self.out_digit(v, pack_bit);
            let ghost l1 = self.layout();
            self.out_type(if more { 1 } else { 0 });
            proof {
                lemma_put_all_one(l1, Tok::Bit(more));
                lemma_put_all_concat(l0, digit_toks(v as nat, pack_bit as nat), seq![Tok::Bit(more)]);
            }
        } else {
            let w = (v - base) / base;
            let d = (v - base) % base;
            self.out_len_groups(w, pack_bit, true);
            let ghost l1 = self.layout();
            self.out_digit(d, pack_bit);
            let ghost l2 = self.layout();
            self.out_type(if more { 1 } else { 0 });
            proof {
                let a = len_toks(w as nat, pack_bit as nat, true);
                let b = digit_toks(d as nat, pack_bit as nat);
                lemma_put_all_one(l2, Tok::Bit(more));
                lemma_put_all_concat(l0, a, b);
                lemma_put_all_concat(l0, a + b, seq![Tok::Bit(more)]);
            }
        }
    }

    /// Encode a variable-length integer with given pack_bit width.
    fn out_len(&mut self, v: usize, pack_bit: usize)
        requires
            old(self).wf(),
            pack_bit == 1 || pack_bit == 2,
        ensures
            final(self).wf(),
            final(self).codec() == old(self).codec(),
            final(self).layout() == put_all(old(self).layout(), len_toks(v as nat, pack_bit as nat, false)),
    {
        self.out_len_groups(v, pack_bit, false);
    }

    fn out_dict_len(&mut self, len: usize)
        requires
            old(self).wf(),
        ensures
            final(self).wf(),
            final(self).codec() == old(self).codec(),
            final(self).layout() == put_all(old(self).layout(), dict_len_toks(len as nat)),
    {
        self.out_len(len, 1);
    }

    fn out_dict_pos_len(&mut self, len: usize)
        requires
            old(self).wf(),
        ensures
            final(self).wf(),
            final(self).codec() == old(self).codec(),
            final(self).layout() == put_all(old(self).layout(), pos_len_toks(len as nat)),
    {
        self.out_len(len, 2);
    }

    fn out_dict_pos(&mut self, pos: usize)
        requires
            old(self).wf(),
        ensures
            final(self).wf(),
            final(self).codec() == old(self).codec(),
            final(self).layout() == put_all(old(self).layout(), pos_toks(pos as nat)),
    {
        let ghost l0 = self.layout();
        if pos >= 128 {
            let adjusted = pos - 128;
            let b = (adjusted % 128 + 128) as u8;
            self.code.push(b);
            let ghost l1 = self.layout();
            self.out_dict_pos_len(adjusted / 128);
            proof {
                lemma_put_all_one(l0, Tok::Byte(b));
                lemma_put_all_concat(l0, seq![Tok::Byte(b)], pos_len_toks((adjusted / 128) as nat));
            }
        } else {
            self.code.push(pos as u8);
            proof {
                lemma_put_all_one(l0, Tok::Byte(pos as u8));
            }
        }
    }

    fn out_ctrl(&mut self, ctrl: usize)
        requires
            old(self).wf(),
        ensures
            final(self).wf(),
            final(self).codec() == old(self).codec(),
            final(self).layout() == put_all(
                old(self).layout(),
                ctrl_toks(ctrl as nat, old(self).is_have_data_back),
            ),
    {
        let ghost l0 = self.layout();
        let ghost have = self.is_have_data_back;
        self.out_type(0);
        let ghost l1 = self.layout();
        self.out_dict_len(ctrl);
        let ghost l2 = self.layout();
        if self.is_have_data_back {
            self.out_type(0);
        }
        let ghost l3 = self.layout();
        self.out_dict_pos(0);
        proof {
            let t1 = seq![Tok::Bit(false)];
            let t2 = dict_len_toks(ctrl as nat);
            let t3: Seq<Tok> = if have { seq![Tok::Bit(false)] } else { Seq::empty() };
            let t4 = pos_toks(0);
            lemma_put_all_one(l0, Tok::Bit(false));
            if have {
                lemma_put_all_one(l2, Tok::Bit(false));
            } else {
                assert(put_all(l2, t3) == l2);
            }
            lemma_put_all_concat(l0, t1, t2);
            lemma_put_all_concat(l0, t1 + t2, t3);
            lemma_put_all_concat(l0, t1 + t2 + t3, t4);
        }
    }

    fn out_stream_end(&mut self)
        requires
            old(self).wf(),
        ensures
            final(self).wf(),
            final(self).code@ == put_all(old(self).layout(), end_toks(old(self).is_have_data_back)).code,
    {
        self.out_ctrl(CTRL_STREAM_END);
        self.type_count = 0;
        self.dict_pos_back = 1;
        self.is_have_data_back = false;
    }

    /// Emit literal bytes.
    fn out_data(&mut self, data: &[u8])
        requires
            old(self).wf(),
        ensures
            final(self).wf(),
            final(self).codec() == (Codec { back: old(self).codec().back, have: true }),
            final(self).layout() == put_all(
                old(self).layout(),
                data_toks(data@, old(self).is_have_data_back),
            ),
    {
        let ghost l0 = self.layout();
        let len = data.len();
        if self.is_need_literal_line && len >= MIN_LITERAL_LEN {
            self.out_ctrl(CTRL_LITERAL_LINE);
            let ghost l1 = self.layout();
            self.out_dict_pos_len(len - MIN_LITERAL_LEN);
            let ghost l2 = self.layout();
            self.code.extend_from_slice(data);
            proof {
                let t1 = ctrl_toks(CTRL_LITERAL_LINE as nat, old(self).is_have_data_back);
                let t2 = pos_len_toks((len - MIN_LITERAL_LEN) as nat);
                lemma_put_all_bytes(l2, data@);
                assert(self.code@ =~= l2.code + data@);
                assert(self.layout() == put_all(l2, bytes_toks(data@)));
                lemma_put_all_concat(l0, t1, t2);
                lemma_put_all_concat(l0, t1 + t2, bytes_toks(data@));
            }
        } else {
            let mut i: usize = 0;
            while i < len
                invariant
                    self.wf(),
                    self.codec() == old(self).codec(),
                    len == data@.len(),
                    i <= len,
                    self.layout() == put_all(l0, lit_toks(data@.take(i as int))),
                decreases len - i,
            {
                let ghost li = self.layout();
                self.out_type(1);
                let ghost lj = self.layout();
                self.code.push(data[i]);
                proof {
                    let s = data@.take(i + 1);
                    assert(s.drop_last() =~= data@.take(i as int));
                    let t = seq![Tok::Bit(true), Tok::Byte(data@[i as int])];
                    assert(t =~= seq![Tok::Bit(true)] + seq![Tok::Byte(data@[i as int])]);
                    lemma_put_all_one(li, Tok::Bit(true));
                    lemma_put_all_one(lj, Tok::Byte(data@[i as int]));
                    lemma_put_all_concat(li, seq![Tok::Bit(true)], seq![Tok::Byte(data@[i as int])]);
                    assert(self.code@ =~= lj.code.push(data@[i as int]));
                    assert(put_all(li, t) == self.layout());
                    lemma_put_all_concat(l0, lit_toks(data@.take(i as int)), t);
                }
                i = i + 1;
            }
            proof {
                assert(data@.take(len as int) =~= data@);
            }
        }
        self.is_have_data_back = true;
    }

    /// Emit a dictionary back-reference of `match_len` bytes, `dict_pos + 1`
    /// bytes back.
    fn out_dict(&mut self, match_len: usize, dict_pos: usize)
        requires
            old(self).wf(),
            match_len >= MIN_DICT_MATCH_LEN,
            dict_pos < usize::MAX,
            match_len == MIN_DICT_MATCH_LEN ==> !len_reduced((dict_pos + 1) as nat, old(self).codec()),
        ensures
            final(self).wf(),
            final(self).codec() == (Codec { back: (dict_pos + 1) as nat, have: false }),
            final(self).layout() == put_all(
                old(self).layout(),
                dict_toks(match_len as nat, (dict_pos + 1) as nat, old(self).codec()),
            ),
    {
        let ghost l0 = self.layout();
        let ghost st = self.codec();
        self.out_type(0);
        let saved_dict_pos = dict_pos + 1;
        let is_same_pos = self.dict_pos_back == saved_dict_pos;
        let is_saved_same_pos = is_same_pos && self.is_have_data_back;
        let mut len = match_len - MIN_DICT_MATCH_LEN;
        if !is_saved_same_pos && saved_dict_pos > BIG_POS_FOR_LEN {
            len = len - 1;
        }
        let ghost l1 = self.layout();
        self.out_dict_len(len);
        let ghost l2 = self.layout();
        if self.is_have_data_back {
            self.out_type(if is_saved_same_pos { 1 } else { 0 });
        }
        let ghost l3 = self.layout();
        if !is_saved_same_pos {
            self.out_dict_pos(saved_dict_pos);
        }
        proof {
            let same = st.back == saved_dict_pos && st.have;
            let t1 = seq![Tok::Bit(false)];
            let t2 = dict_len_toks(len as nat);
            let t3: Seq<Tok> = if st.have { seq![Tok::Bit(same)] } else { Seq::empty() };
            let t4: Seq<Tok> = if !same { pos_toks(saved_dict_pos as nat) } else { Seq::empty() };
            lemma_put_all_one(l0, Tok::Bit(false));
            if st.have {
                lemma_put_all_one(l2, Tok::Bit(same));
            } else {
                assert(put_all(l2, t3) == l2);
            }
            if same {
                assert(put_all(l3, t4) == l3);
            }
            lemma_put_all_concat(l0, t1, t2);
            lemma_put_all_concat(l0, t1 + t2, t3);
            lemma_put_all_concat(l0, t1 + t2 + t3, t4);
            assert(t1 + t2 + t3 + t4 =~= dict_toks(match_len as nat, saved_dict_pos as nat, st));
        }
        self.is_have_data_back = false;
        self.dict_pos_back = saved_dict_pos;
    }
}


pub proof fn lemma_ext_len_bound(data: Seq<u8>, pos: nat, dist: nat, max_match: nat, k: nat)
    requires
        k <= max_match,
    ensures
        k <= ext_len(data, pos, dist, max_match, k) <= max_match,
    decreases max_match - k,
{
    if k < max_match && data[(pos + k) as int] == data[pos - dist + (k % dist) as int] {
        lemma_ext_len_bound(data, pos, dist, max_match, k + 1);
    }
}

pub proof fn lemma_scan_bounds(
    data: Seq<u8>,
    pos: nat,
    max_lookback: nat,
    max_match: nat,
    dist: nat,
    best: (nat, nat),
)
    requires
        best.0 >= MIN_DICT_MATCH_LEN ==> 1 <= best.1 <= max_lookback && best.0 <= max_match
            && best.0 == ext_len(data, pos, best.1, max_match, 0),
    ensures
        ({
            let r = scan(data, pos, max_lookback, max_match, dist, best);
            r.0 >= MIN_DICT_MATCH_LEN ==> 1 <= r.1 <= max_lookback && r.0 <= max_match && r.0
                == ext_len(data, pos, r.1, max_match, 0)
        }),
    decreases max_lookback + 1 - dist,
{
    if dist > max_lookback || dist == 0 {
    } else {
        let len = ext_len(data, pos, dist, max_match, 0);
        lemma_ext_len_bound(data, pos, dist, max_match, 0);
        if len > best.0 && len >= MIN_DICT_MATCH_LEN {
            if len != max_match {
                lemma_scan_bounds(data, pos, max_lookback, max_match, dist + 1, (len, dist));
            }
        } else {
            lemma_scan_bounds(data, pos, max_lookback, max_match, dist + 1, best);
        }
    }
}

/// A match that the compressor takes lies inside the input and looks back
/// at least one byte and at most `min(pos, dict_size)` bytes.
pub proof fn lemma_best_match_bounds(data: Seq<u8>, pos: nat, dict_size: nat)
    requires
        pos < data.len(),
    ensures
        ({
            let m = best_match(data, pos, dict_size);
            m.0 >= MIN_DICT_MATCH_LEN ==> {
                &&& 1 <= m.1 <= pos
                &&& m.1 <= dict_size
                &&& pos + m.0 <= data.len()
                &&& m.0 <= MAX_MATCH_LEN
                &&& forall|k: nat| k < m.0 ==> #[trigger] repeats_at(data, pos, m.1, k)
            }
        }),
{
    let max_lookback = if pos < dict_size { pos } else { dict_size };
    let remaining = (data.len() - pos) as nat;
    let max_match = if remaining < MAX_MATCH_LEN { remaining } else { MAX_MATCH_LEN as nat };
    if max_lookback != 0 {
        lemma_scan_bounds(data, pos, max_lookback, max_match, 1, (0, 0));
        let m = best_match(data, pos, dict_size);
        if m.0 >= MIN_DICT_MATCH_LEN {
            lemma_ext_len_match(data, pos, m.1, max_match, 0);
        }
    }
}

/// The byte `j` places after `pos` equals its source in a match `dist` back.
pub open spec fn repeats_at(data: Seq<u8>, pos: nat, dist: nat, j: nat) -> bool {
    data[(pos + j) as int] == data[pos - dist + (j % dist) as int]
}

/// Every byte that a match covers equals the byte `dist` back in the
/// repeating source.
pub proof fn lemma_ext_len_match(data: Seq<u8>, pos: nat, dist: nat, max_match: nat, k: nat)
    requires
        k <= max_match,
    ensures
        forall|j: nat|
            k <= j < ext_len(data, pos, dist, max_match, k) ==> #[trigger] repeats_at(data, pos, dist, j),
    decreases max_match - k,
{
    if k < max_match && data[(pos + k) as int] == data[pos - dist + (k % dist) as int] {
        lemma_ext_len_match(data, pos, dist, max_match, k + 1);
    }
}

/// Find the longest match at `pos` looking back up to `dict_size` bytes.
fn find_best_match(data: &[u8], pos: usize, dict_size: usize) -> (r: (usize, usize))
    requires
        pos < data@.len(),
    ensures
        (r.0 as nat, r.1 as nat) == best_match(data@, pos as nat, dict_size as nat),
{
    let max_lookback = if pos < dict_size { pos } else { dict_size };
    if max_lookback == 0 {
        return (0, 0);
    }
    let n = data.len();
    let remaining = n - pos;
    let max_match = if remaining < MAX_MATCH_LEN { remaining } else { MAX_MATCH_LEN };
    let ghost target = scan(data@, pos as nat, max_lookback as nat, max_match as nat, 1, (0, 0));
    let mut best_len: usize = 0;
    let mut best_dist: usize = 0;
    let mut dist: usize = 1;
    while dist <= max_lookback
        invariant_except_break
            1 <= dist <= max_lookback + 1,
            target == scan(
                data@,
                pos as nat,
                max_lookback as nat,
                max_match as nat,
                dist as nat,
                (best_len as nat, best_dist as nat),
            ),
        invariant
            max_lookback <= pos,
            pos < data@.len(),
            data@.len() <= usize::MAX,
            pos + max_match <= data@.len(),
            max_lookback >= 1,
        ensures
            target == (best_len as nat, best_dist as nat),
        decreases max_lookback + 1 - dist,
    {
        let mut len: usize = 0;
        while len < max_match && data[pos + len] == data[pos - dist + (len % dist)]
            invariant
                1 <= dist <= max_lookback <= pos,
                pos + max_match <= data@.len(),
                data@.len() <= usize::MAX,
                len <= max_match,
                ext_len(data@, pos as nat, dist as nat, max_match as nat, 0) == ext_len(
                    data@,
                    pos as nat,
                    dist as nat,
                    max_match as nat,
                    len as nat,
                ),
            decreases max_match - len,
        {
            len = len + 1;
        }
        if len > best_len && len >= MIN_DICT_MATCH_LEN {
            best_len = len;
            best_dist = dist;
            if len == max_match {
                break;
            }
        }
        dist = dist + 1;
    }
    (best_len, best_dist)
}

/// Copies `src[from..to]` into a new vector.
fn copy_range(src: &[u8], from: usize, to: usize) -> (out: Vec<u8>)
    requires
        from <= to <= src@.len(),
    ensures
        out@ == src@.subrange(from as int, to as int),
{
    let mut out: Vec<u8> = Vec::new();
    let mut i = from;
    while i < to
        invariant
            from <= i <= to <= src@.len(),
            out@ == src@.subrange(from as int, i as int),
        decreases to - i,
    {
        out.push(src[i]);
        i = i + 1;
    }
    out
}

/// Compresses with greedy matching, or `None` where greedy matching reaches a
/// 2-byte match so far back that its stored length would drop below zero.
pub fn tuz_compress_checked(input: &[u8], dict_size: usize) -> (r: Option<Vec<u8>>)
    ensures
        r is Some <==> compressible(input@, dict_size as nat),
        r matches Some(out) ==> out@ == tuz_compressed(input@, dict_size as nat),
{
    let ghost data = input@;
    let ghost d = dict_size as nat;
    let mut enc = TuzEncoder::new(true);
    enc.out_dict_size(dict_size);
    if input.len() == 0 {
        let ghost l = enc.layout();
        enc.out_stream_end();
        proof {
            assert(flush_toks(data, 0, 0, initial_codec()).0 =~= Seq::<Tok>::empty());
            assert(greedy(data, d, 0, 0, initial_codec()) == Some(end_toks(false))) by {
                assert(Seq::<Tok>::empty() + end_toks(false) =~= end_toks(false));
            }
            lemma_put_all_concat(empty_layout(), header_toks(d), end_toks(false));
        }
        return Some(enc.code);
    }
    let mut pos: usize = 0;
    let mut literal_start: usize = 0;
    let ghost mut toks: Seq<Tok> = Seq::empty();
    proof {
        assert(opt_prefix(toks, greedy(data, d, 0, 0, initial_codec())) == greedy(data, d, 0, 0, initial_codec())) by {
            match greedy(data, d, 0, 0, initial_codec()) {
                Some(r) => { assert(toks + r =~= r); },
                None => {},
            }
        }
        assert(header_toks(d) + toks =~= header_toks(d));
    }
    while pos < input.len()
        invariant
            enc.wf(),
            data == input@,
            d == dict_size as nat,
            literal_start <= pos <= input@.len(),
            enc.layout() == put_all(empty_layout(), header_toks(d) + toks),
            greedy(data, d, 0, 0, initial_codec()) == opt_prefix(
                toks,
                greedy(data, d, pos as nat, literal_start as nat, enc.codec()),
            ),
        decreases input@.len() - pos,
    {
        let (match_len, match_dist) = find_best_match(input, pos, dict_size);
        proof {
            lemma_best_match_bounds(data, pos as nat, d);
        }
        if match_len >= MIN_DICT_MATCH_LEN {
            let ghost st0 = enc.codec();
            let ghost f = flush_toks(data, literal_start as nat, pos as nat, st0);
            let ghost l0 = enc.layout();
            if literal_start < pos {
                let lits = copy_range(input, literal_start, pos);
                enc.out_data(lits.as_slice());
            } else {
                proof {
                    assert(put_all(l0, f.0) == l0);
                }
            }
            if match_len == MIN_DICT_MATCH_LEN && !(enc.dict_pos_back == match_dist
                && enc.is_have_data_back) && match_dist > BIG_POS_FOR_LEN {
                return None;
            }
            let ghost l1 = enc.layout();
            let ghost st1 = enc.codec();
            enc.out_dict(match_len, match_dist - 1);
            proof {
                let dt = dict_toks(match_len as nat, match_dist as nat, st1);
                lemma_put_all_concat(l0, f.0, dt);
                lemma_put_all_concat(empty_layout(), header_toks(d) + toks, f.0 + dt);
                assert(header_toks(d) + toks + (f.0 + dt) =~= header_toks(d) + (toks + (f.0 + dt)));
                let rest = greedy(data, d, (pos + match_len) as nat, (pos + match_len) as nat, enc.codec());
                match rest {
                    Some(r) => {
                        assert(toks + (f.0 + dt + r) =~= toks + (f.0 + dt) + r);
                    },
                    None => {},
                }
                toks = toks + (f.0 + dt);
            }
            pos = pos + match_len;
            literal_start = pos;
        } else {
            pos = pos + 1;
        }
    }
    let ghost st0 = enc.codec();
    let ghost f = flush_toks(data, literal_start as nat, input@.len(), st0);
    let ghost l0 = enc.layout();
    if literal_start < input.len() {
        let lits = copy_range(input, literal_start, input.len());
        enc.out_data(lits.as_slice());
    } else {
        proof {
            assert(put_all(l0, f.0) == l0);
        }
    }
    let ghost l1 = enc.layout();
    let ghost have1 = enc.is_have_data_back;
    enc.out_stream_end();
    proof {
        let et = end_toks(have1);
        lemma_put_all_concat(l0, f.0, et);
        lemma_put_all_concat(empty_layout(), header_toks(d) + toks, f.0 + et);
        assert(header_toks(d) + toks + (f.0 + et) =~= header_toks(d) + (toks + (f.0 + et)));
    }
    Some(enc.code)
}

/// Compress data using tinyuz algorithm with greedy matching.
///
/// At each position the longest back-reference within the dictionary window
/// is taken; bytes without a match of at least 2 are written as literals.
pub fn tuz_compress(input: &[u8], dict_size: usize) -> (out: Vec<u8>)
    requires
        compressible(input@, dict_size as nat),
    ensures
        out@ == tuz_compressed(input@, dict_size as nat),
{
    match tuz_compress_checked(input, dict_size) {
        Some(out) => out,
        None => Vec::new(),
    }
}


// ---------------------------------------------------------------------------
// Decompression
/// Where a reader of the compressed stream stands: the next byte, the type
/// bits not yet used from the current type byte, and how many there are.
pub struct Reader {
    pub pos: nat,
    pub types: nat,
    pub count: nat,
}

/// Bits left to read, a measure that every read lowers.
pub open spec fn rem(code: Seq<u8>, r: Reader) -> nat {
    if r.pos <= code.len() {
        ((code.len() - r.pos) * 8 + r.count) as nat
    } else {
        0
    }
}

/// Reads one type bit, fetching the next byte as a type byte when the
/// current one is used up.
pub open spec fn read_bit(code: Seq<u8>, r: Reader) -> Option<(bool, Reader)> {
    if r.count == 0 {
        if r.pos < code.len() {
            let v = code[r.pos as int] as nat;
            Some((v % 2 == 1, Reader { pos: r.pos + 1, types: v / 2, count: 7 }))
        } else {
            None
        }
    } else {
        Some((r.types % 2 == 1, Reader { pos: r.pos, types: r.types / 2, count: (r.count - 1) as nat }))
    }
}

/// Reads one whole byte.
pub open spec fn read_byte(code: Seq<u8>, r: Reader) -> Option<(u8, Reader)> {
    if r.pos < code.len() {
        Some((code[r.pos as int], Reader { pos: r.pos + 1, types: r.types, count: r.count }))
    } else {
        None
    }
}

/// Reads `n` whole bytes.
pub open spec fn read_bytes(code: Seq<u8>, r: Reader, n: nat) -> Option<(Seq<u8>, Reader)> {
    if r.pos + n <= code.len() {
        Some((
            code.subrange(r.pos as int, (r.pos + n) as int),
            Reader { pos: r.pos + n, types: r.types, count: r.count },
        ))
    } else {
        None
    }
}

/// Reads the bits of one digit, least significant first.
pub open spec fn read_digit(code: Seq<u8>, r: Reader, pack_bit: nat) -> Option<(nat, Reader)> {
    match read_bit(code, r) {
        None => None,
        Some((b0, r1)) => if pack_bit == 1 {
            Some((if b0 { 1nat } else { 0nat }, r1))
        } else {
            match read_bit(code, r1) {
                None => None,
                Some((b1, r2)) => Some(
                    ((if b0 { 1nat } else { 0nat }) + (if b1 { 2nat } else { 0nat }), r2),
                ),
            }
        },
    }
}

/// Reads the rest of a variable-length number whose groups so far add up
/// to `acc`; fails where a value would not fit a `usize`.
pub open spec fn read_len_from(code: Seq<u8>, r: Reader, pack_bit: nat, acc: nat) -> Option<
    (nat, Reader),
>
    decreases rem(code, r),
{
    match read_digit(code, r, pack_bit) {
        None => None,
        Some((d, r1)) => match read_bit(code, r1) {
            None => None,
            Some((c, r2)) => {
                let a = acc * pack_base(pack_bit) + d;
                if a >= usize::MAX {
                    None
                } else if !c {
                    Some((a, r2))
                } else if rem(code, r2) < rem(code, r) {
                    read_len_from(code, r2, pack_bit, a + 1)
                } else {
                    None
                }
            },
        },
    }
}

/// Reads a variable-length number.
pub open spec fn read_len(code: Seq<u8>, r: Reader, pack_bit: nat) -> Option<(nat, Reader)> {
    read_len_from(code, r, pack_bit, 0)
}

/// Appends `n` bytes copied from `dist` bytes back, one at a time, so the
/// copy may overlap what it writes.
pub open spec fn copy_back(out: Seq<u8>, dist: nat, n: nat) -> Seq<u8>
    decreases n,
{
    if n == 0 {
        out
    } else {
        copy_back(out.push(out[out.len() - dist]), dist, (n - 1) as nat)
    }
}

/// The saved position of a match and its stored length as adjusted:
/// either the previous position (one set bit, only after literal data) or
/// an explicit position, above `BIG_POS_FOR_LEN` with the length one more.
pub open spec fn read_match_pos(code: Seq<u8>, r: Reader, st: Codec, len: nat) -> Option<
    (nat, nat, Reader),
> {
    let same = if st.have {
        read_bit(code, r)
    } else {
        Some((false, r))
    };
    match same {
        None => None,
        Some((s, r1)) => if s {
            Some((st.back, len, r1))
        } else {
            match read_byte(code, r1) {
                None => None,
                Some((b, r2)) => if b < 128 {
                    Some((b as nat, len, r2))
                } else {
                    match read_len(code, r2, 2) {
                        None => None,
                        Some((ext, r3)) => {
                            let pos = (b - 128) + ext * 128 + 128;
                            if pos >= usize::MAX {
                                None
                            } else if pos > BIG_POS_FOR_LEN {
                                if len + 1 >= usize::MAX {
                                    None
                                } else {
                                    Some((pos as nat, len + 1, r3))
                                }
                            } else {
                                Some((pos as nat, len, r3))
                            }
                        },
                    }
                },
            }
        },
    }
}

/// Why a compressed stream does not decode.
#[derive(Debug, Clone, Copy, PartialEq, Eq, Structural)]
pub enum DecodeError {
    /// Shorter than the 4-byte dictionary size.
    TooShort,
    /// It ends inside a code (or a length does not fit a `usize`).
    Truncated,
    /// A match reaches back before the start of the output.
    BadDictPos,
    /// A control code of no known kind.
    UnknownControl,
}

/// The message of a decoding error.
pub open spec fn decode_error_text(e: DecodeError) -> Seq<char> {
    match e {
        DecodeError::TooShort => "too short"@,
        DecodeError::Truncated => "unexpected end of input"@,
        DecodeError::BadDictPos => "dict pos out of range"@,
        DecodeError::UnknownControl => "unknown control type"@,
    }
}

/// Decodes the stream from `r` on, having written `out` so far, or tells
/// why it does not decode.
pub open spec fn decode_from(code: Seq<u8>, r: Reader, out: Seq<u8>, st: Codec) -> Result<Seq<u8>, DecodeError>
    decreases rem(code, r),
{
    match read_bit(code, r) {
        None => Err(DecodeError::Truncated),
        Some((t, r1)) => if t {
            match read_byte(code, r1) {
                None => Err(DecodeError::Truncated),
                Some((x, r2)) => if rem(code, r2) < rem(code, r) {
                    decode_from(code, r2, out.push(x), Codec { back: st.back, have: true })
                } else {
                    Err(DecodeError::Truncated)
                },
            }
        } else {
            match read_len(code, r1, 1) {
                None => Err(DecodeError::Truncated),
                Some((len, r2)) => match read_match_pos(code, r2, st, len) {
                    None => Err(DecodeError::Truncated),
                    Some((pos, len2, r3)) => if rem(code, r3) >= rem(code, r) {
                        Err(DecodeError::Truncated)
                    } else if pos != 0 {
                        if len2 + MIN_DICT_MATCH_LEN >= usize::MAX || pos > out.len() {
                            Err(DecodeError::BadDictPos)
                        } else {
                            decode_from(
                                code,
                                r3,
                                copy_back(out, pos, (len2 + MIN_DICT_MATCH_LEN) as nat),
                                Codec { back: pos, have: false },
                            )
                        }
                    } else if len2 == CTRL_LITERAL_LINE {
                        match read_len(code, r3, 2) {
                            None => Err(DecodeError::Truncated),
                            Some((n, r4)) => if n + MIN_LITERAL_LEN >= usize::MAX {
                                Err(DecodeError::Truncated)
                            } else {
                                match read_bytes(code, r4, (n + MIN_LITERAL_LEN) as nat) {
                                    None => Err(DecodeError::Truncated),
                                    Some((bs, r5)) => if rem(code, r5) < rem(code, r) {
                                        decode_from(code, r5, out + bs, Codec { back: st.back, have: true })
                                    } else {
                                        Err(DecodeError::Truncated)
                                    },
                                }
                            },
                        }
                    } else if len2 == 2 {
                        decode_from(
                            code,
                            Reader { pos: r3.pos, types: r3.types, count: 0 },
                            out,
                            Codec { back: 1, have: false },
                        )
                    } else if len2 == CTRL_STREAM_END {
                        Ok(out)
                    } else {
                        Err(DecodeError::UnknownControl)
                    }
                },
            }
        },
    }
}

/// What a compressed stream decodes to: after the 4-byte dictionary size,
/// the bytes until the end-of-stream control, or why it does not decode.
pub open spec fn tuz_decode(code: Seq<u8>) -> Result<Seq<u8>, DecodeError> {
    if code.len() < 4 {
        Err(DecodeError::TooShort)
    } else {
        decode_from(code, Reader { pos: 4, types: 0, count: 0 }, Seq::empty(), initial_codec())
    }
}

/// The bytes that a compressed stream decodes to, if it decodes.
pub open spec fn tuz_decompressed(code: Seq<u8>) -> Option<Seq<u8>> {
    match tuz_decode(code) {
        Ok(v) => Some(v),
        Err(_) => None,
    }
}


// ---------------------------------------------------------------------------
// Reading back what was laid out
/// The final bytes `c` agree with layout `l` everywhere except in the open
/// type byte, whose low `count` bits already hold their final value.
pub open spec fn future(l: Layout, c: Seq<u8>) -> bool {
    &&& l.code.len() <= c.len()
    &&& forall|k: int|
        0 <= k < l.code.len() && (l.count == 0 || k != l.idx) ==> c[k] == l.code[k]
    &&& l.count > 0 ==> c[l.idx] as nat % weight(l.count) == l.code[l.idx] as nat
}

/// A reader stands where layout `l` ends in the final bytes `c`.
pub open spec fn synced(c: Seq<u8>, l: Layout, r: Reader) -> bool {
    &&& r.pos == l.code.len()
    &&& l.count == 0 ==> r.count == 0
    &&& l.count > 0 ==> r.count == 8 - l.count && r.types == c[l.idx] as nat / weight(l.count)
}

proof fn lemma_mod_step(x: nat, p: nat, b: nat, c: nat)
    requires
        1 <= c < 7,
        p < weight(c),
        b <= 1,
        x % weight(c + 1) == p + b * weight(c),
    ensures
        x % weight(c) == p,
        (x / weight(c)) % 2 == b,
        x / weight(c) / 2 == x / weight(c + 1),
{
    if c == 1 {
        assert(x % 2 == p && (x / 2) % 2 == b && x / 2 / 2 == x / 4) by (nonlinear_arith)
            requires x % 4 == p + b * 2, p < 2, b <= 1;
    } else if c == 2 {
        assert(x % 4 == p && (x / 4) % 2 == b && x / 4 / 2 == x / 8) by (nonlinear_arith)
            requires x % 8 == p + b * 4, p < 4, b <= 1;
    } else if c == 3 {
        assert(x % 8 == p && (x / 8) % 2 == b && x / 8 / 2 == x / 16) by (nonlinear_arith)
            requires x % 16 == p + b * 8, p < 8, b <= 1;
    } else if c == 4 {
        assert(x % 16 == p && (x / 16) % 2 == b && x / 16 / 2 == x / 32) by (nonlinear_arith)
            requires x % 32 == p + b * 16, p < 16, b <= 1;
    } else if c == 5 {
        assert(x % 32 == p && (x / 32) % 2 == b && x / 32 / 2 == x / 64) by (nonlinear_arith)
            requires x % 64 == p + b * 32, p < 32, b <= 1;
    } else {
        assert(x % 64 == p && (x / 64) % 2 == b && x / 64 / 2 == x / 128) by (nonlinear_arith)
            requires x % 128 == p + b * 64, p < 64, b <= 1;
    }
}

proof fn lemma_top_bit(x: nat, p: nat, b: nat)
    requires
        p < 128,
        b <= 1,
        x == p + b * 128,
    ensures
        x % 128 == p,
        (x / 128) % 2 == b,
        x / 128 / 2 == 0,
{
}

/// Whatever is laid out after `l`, the result agrees with `l`.
pub proof fn lemma_future(l: Layout, ts: Seq<Tok>)
    requires
        layout_wf(l),
    ensures
        future(l, put_all(l, ts).code),
    decreases ts.len(),
{
    if ts.len() == 0 {
        if l.count > 0 {
            assert(l.code[l.idx] as nat % weight(l.count) == l.code[l.idx] as nat);
        }
    } else {
        let l1 = put(l, ts[0]);
        lemma_put_wf(l, ts[0]);
        lemma_future(l1, ts.drop_first());
        let c = put_all(l, ts).code;
        assert(c == put_all(l1, ts.drop_first()).code);
        match ts[0] {
            Tok::Byte(x) => {},
            Tok::Bit(b) => {
                if l.count > 0 {
                    let p = l.code[l.idx] as nat;
                    let bb: nat = if b { 1 } else { 0 };
                    assert(l1.code[l.idx] as nat == p + bb * weight(l.count));
                    if l.count == 7 {
                        lemma_top_bit(c[l.idx] as nat, p, bb);
                    } else {
                        lemma_mod_step(c[l.idx] as nat, p, bb, l.count);
                    }
                }
            },
        }
    }
}

pub proof fn lemma_rem_bit(c: Seq<u8>, r: Reader)
    requires
        r.pos <= c.len(),
        r.count <= 7,
        read_bit(c, r) is Some,
    ensures
        rem(c, read_bit(c, r).unwrap().1) < rem(c, r),
        read_bit(c, r).unwrap().1.pos <= c.len(),
        read_bit(c, r).unwrap().1.count <= 7,
{
}

/// Reading a type bit where one was laid out gives that bit.
pub proof fn lemma_read_bit(l: Layout, ts: Seq<Tok>, r: Reader)
    requires
        layout_wf(l),
        ts.len() > 0,
        ts[0] is Bit,
        synced(put_all(l, ts).code, l, r),
    ensures
        ({
            let c = put_all(l, ts).code;
            &&& read_bit(c, r) is Some
            &&& read_bit(c, r).unwrap().0 == ts[0]->Bit_0
            &&& synced(c, put(l, ts[0]), read_bit(c, r).unwrap().1)
            &&& c == put_all(put(l, ts[0]), ts.drop_first()).code
            &&& layout_wf(put(l, ts[0]))
            &&& rem(c, read_bit(c, r).unwrap().1) < rem(c, r)
            &&& read_bit(c, r).unwrap().1.pos <= c.len()
            &&& read_bit(c, r).unwrap().1.count <= 7
        }),
{
    let c = put_all(l, ts).code;
    let l1 = put(l, ts[0]);
    let b = ts[0]->Bit_0;
    let bb: nat = if b { 1 } else { 0 };
    lemma_put_wf(l, ts[0]);
    lemma_future(l1, ts.drop_first());
    assert(c == put_all(l1, ts.drop_first()).code);
    if l.count == 0 {
        let v = c[l.code.len() as int] as nat;
        assert(l1.idx == l.code.len());
        assert(l1.code[l1.idx] as nat == bb);
        assert(v % 2 == bb);
        assert(v / 2 == v / weight(1));
    } else {
        let p = l.code[l.idx] as nat;
        let x = c[l.idx] as nat;
        assert(l1.code[l.idx] as nat == p + bb * weight(l.count));
        if l.count == 7 {
            assert(x == p + bb * 128);
            lemma_top_bit(x, p, bb);
        } else {
            lemma_mod_step(x, p, bb, l.count);
        }
    }
    lemma_rem_bit(c, r);
}

/// Reading a byte where one was laid out gives that byte.
pub proof fn lemma_read_byte(l: Layout, ts: Seq<Tok>, r: Reader)
    requires
        layout_wf(l),
        ts.len() > 0,
        ts[0] is Byte,
        synced(put_all(l, ts).code, l, r),
        r.count <= 7,
    ensures
        ({
            let c = put_all(l, ts).code;
            &&& read_byte(c, r) is Some
            &&& read_byte(c, r).unwrap().0 == ts[0]->Byte_0
            &&& synced(c, put(l, ts[0]), read_byte(c, r).unwrap().1)
            &&& c == put_all(put(l, ts[0]), ts.drop_first()).code
            &&& layout_wf(put(l, ts[0]))
            &&& rem(c, read_byte(c, r).unwrap().1) < rem(c, r)
            &&& read_byte(c, r).unwrap().1.pos <= c.len()
            &&& read_byte(c, r).unwrap().1.count <= 7
        }),
{
    let c = put_all(l, ts).code;
    let l1 = put(l, ts[0]);
    lemma_put_wf(l, ts[0]);
    lemma_future(l1, ts.drop_first());
    assert(c == put_all(l1, ts.drop_first()).code);
    assert(l1.code[l.code.len() as int] == ts[0]->Byte_0);
}


/// A reader that can still read: not past the end, at most 7 bits left.
pub open spec fn reader_ok(c: Seq<u8>, r: Reader) -> bool {
    r.pos <= c.len() && r.count <= 7
}

/// A reader in step with layout `l` of the tokens `ts` that follow.
pub open spec fn at(l: Layout, ts: Seq<Tok>, r: Reader) -> bool {
    &&& layout_wf(l)
    &&& synced(put_all(l, ts).code, l, r)
    &&& reader_ok(put_all(l, ts).code, r)
}

proof fn lemma_concat_first(a: Seq<Tok>, b: Seq<Tok>)
    requires
        a.len() > 0,
    ensures
        (a + b)[0] == a[0],
        (a + b).drop_first() == a.drop_first() + b,
{
    assert((a + b).drop_first() =~= a.drop_first() + b);
}

/// Reads the digit laid out at the head of `ts`.
pub proof fn lemma_read_digit(l: Layout, d: nat, pack_bit: nat, rest: Seq<Tok>, r: Reader) -> (r2:
    Reader)
    requires
        pack_bit == 1 || pack_bit == 2,
        d < pack_base(pack_bit),
        at(l, digit_toks(d, pack_bit) + rest, r),
    ensures
        ({
            let c = put_all(l, digit_toks(d, pack_bit) + rest).code;
            &&& read_digit(c, r, pack_bit) == Some((d, r2))
            &&& at(put_all(l, digit_toks(d, pack_bit)), rest, r2)
            &&& put_all(put_all(l, digit_toks(d, pack_bit)), rest).code == c
            &&& rem(c, r2) < rem(c, r)
        }),
{
    let dt = digit_toks(d, pack_bit);
    let ts = dt + rest;
    let c = put_all(l, ts).code;
    lemma_put_all_concat(l, dt, rest);
    lemma_concat_first(dt, rest);
    lemma_read_bit(l, ts, r);
    let r1 = read_bit(c, r).unwrap().1;
    let l1 = put(l, ts[0]);
    if pack_bit == 1 {
        assert(dt.drop_first() =~= Seq::<Tok>::empty());
        assert(ts.drop_first() =~= rest);
        lemma_put_all_one(l, dt[0]);
        r1
    } else {
        let ts1 = ts.drop_first();
        assert(dt.drop_first() =~= seq![Tok::Bit((d / 2) % 2 == 1)]);
        lemma_concat_first(dt.drop_first(), rest);
        assert(ts1 == dt.drop_first() + rest);
        lemma_read_bit(l1, ts1, r1);
        let r2 = read_bit(c, r1).unwrap().1;
        assert(ts1.drop_first() =~= rest);
        assert(dt =~= seq![Tok::Bit(d % 2 == 1)] + seq![Tok::Bit((d / 2) % 2 == 1)]);
        lemma_put_all_concat(l, seq![Tok::Bit(d % 2 == 1)], seq![Tok::Bit((d / 2) % 2 == 1)]);
        lemma_put_all_one(l, Tok::Bit(d % 2 == 1));
        lemma_put_all_one(l1, Tok::Bit((d / 2) % 2 == 1));
        r2
    }
}

/// One group of a variable-length number: its digit and continuation bit.
proof fn lemma_read_len_step(
    c: Seq<u8>,
    r: Reader,
    pack_bit: nat,
    acc: nat,
    d: nat,
    rd: Reader,
    more: bool,
    r2: Reader,
)
    requires
        read_digit(c, r, pack_bit) == Some((d, rd)),
        read_bit(c, rd) == Some((more, r2)),
        acc * pack_base(pack_bit) + d < usize::MAX,
        rem(c, r2) < rem(c, r),
    ensures
        !more ==> read_len_from(c, r, pack_bit, acc) == Some((acc * pack_base(pack_bit) + d, r2)),
        more ==> read_len_from(c, r, pack_bit, acc) == read_len_from(
            c,
            r2,
            pack_bit,
            acc * pack_base(pack_bit) + d + 1,
        ),
{
}

proof fn lemma_groups(v: nat, b: nat) -> (wd: (nat, nat))
    requires
        b >= 2,
        v >= b,
    ensures
        wd.0 == (v - b) / b as int,
        wd.1 == (v - b) % b as int,
        v == (wd.0 + 1) * b + wd.1,
        wd.0 < v,
        wd.1 < b,
{
    let w = ((v - b) / b as int) as nat;
    let dd = ((v - b) % b as int) as nat;
    assert(v == (w + 1) * b + dd && w < v && dd < b) by (nonlinear_arith)
        requires w == (v - b) / b as int, dd == (v - b) % b as int, b >= 2, v >= b;
    (w, dd)
}

/// Reads the variable-length number laid out at the head of `ts`: to its
/// value when it ends there, or on to the groups that follow it.
#[verifier::spinoff_prover]
pub proof fn lemma_read_len(l: Layout, v: nat, pack_bit: nat, more: bool, rest: Seq<Tok>, r: Reader) -> (r2:
    Reader)
    requires
        pack_bit == 1 || pack_bit == 2,
        v < usize::MAX,
        at(l, len_toks(v, pack_bit, more) + rest, r),
    ensures
        ({
            let lt = len_toks(v, pack_bit, more);
            let c = put_all(l, lt + rest).code;
            &&& at(put_all(l, lt), rest, r2)
            &&& put_all(put_all(l, lt), rest).code == c
            &&& rem(c, r2) < rem(c, r)
            &&& !more ==> read_len_from(c, r, pack_bit, 0) == Some((v, r2))
            &&& more ==> read_len_from(c, r, pack_bit, 0) == read_len_from(c, r2, pack_bit, v + 1)
        }),
    decreases v,
{
    let b = pack_base(pack_bit);
    let lt = len_toks(v, pack_bit, more);
    let ts = lt + rest;
    let c = put_all(l, ts).code;
    lemma_put_all_concat(l, lt, rest);
    let mt = seq![Tok::Bit(more)];
    lemma_concat_first(mt, rest);
    assert((mt + rest).drop_first() =~= rest);
    if v < b {
        let dt = digit_toks(v, pack_bit);
        assert(lt == dt + mt);
        assert(ts =~= dt + (mt + rest));
        lemma_put_all_concat(l, dt, mt + rest);
        let r1 = lemma_read_digit(l, v, pack_bit, mt + rest, r);
        let l1 = put_all(l, dt);
        lemma_read_bit(l1, mt + rest, r1);
        let r2 = read_bit(c, r1).unwrap().1;
        lemma_put_all_one(l1, Tok::Bit(more));
        lemma_put_all_concat(l, dt, mt);
        assert(0 * b + v == v);
        lemma_read_len_step(c, r, pack_bit, 0, v, r1, more, r2);
        r2
    } else {
        let wd = lemma_groups(v, b);
        let w = wd.0;
        let dd = wd.1;
        let wt = len_toks(w, pack_bit, true);
        let dt = digit_toks(dd, pack_bit);
        let tail = dt + (mt + rest);
        assert(lt == wt + dt + mt);
        assert(ts =~= wt + tail);
        lemma_put_all_concat(l, wt, tail);
        let rw = lemma_read_len(l, w, pack_bit, true, tail, r);
        let lw = put_all(l, wt);
        lemma_put_all_concat(lw, dt, mt + rest);
        let rd = lemma_read_digit(lw, dd, pack_bit, mt + rest, rw);
        let ld = put_all(lw, dt);
        lemma_read_bit(ld, mt + rest, rd);
        let r2 = read_bit(c, rd).unwrap().1;
        lemma_put_all_one(ld, Tok::Bit(more));
        lemma_put_all_concat(lw, dt, mt);
        lemma_put_all_concat(l, wt, dt + mt);
        assert(wt + (dt + mt) =~= lt);
        assert((w + 1) * pack_base(pack_bit) + dd == v);
        lemma_read_len_step(c, rw, pack_bit, w + 1, dd, rd, more, r2);
        r2
    }
}


/// A match makes each byte equal to the one `dist` before it.
proof fn lemma_repeats_period(data: Seq<u8>, pos: nat, dist: nat, n: nat, k: nat)
    requires
        1 <= dist <= pos,
        pos + n <= data.len(),
        forall|j: nat| j < n ==> #[trigger] repeats_at(data, pos, dist, j),
        k < n,
    ensures
        data[(pos + k) as int] == data[pos + k - dist],
    decreases k,
{
    assert(repeats_at(data, pos, dist, k));
    if k < dist {
        assert(k % dist == k) by (nonlinear_arith)
            requires k < dist;
    } else {
        let k2 = (k - dist) as nat;
        assert(repeats_at(data, pos, dist, k2));
        assert(k2 % dist == k % dist) by (nonlinear_arith)
            requires k2 == k - dist, k >= dist, dist >= 1;
        assert(pos + k2 == pos + k - dist);
    }
}

/// Copying a match that the compressor found rebuilds the input.
pub proof fn lemma_copy_back(data: Seq<u8>, pos: nat, dist: nat, n: nat, i: nat)
    requires
        1 <= dist <= pos,
        pos + n <= data.len(),
        forall|j: nat| j < n ==> #[trigger] repeats_at(data, pos, dist, j),
        i <= n,
    ensures
        copy_back(data.take((pos + i) as int), dist, (n - i) as nat) == data.take((pos + n) as int),
    decreases n - i,
{
    if i < n {
        let out = data.take((pos + i) as int);
        lemma_repeats_period(data, pos, dist, n, i);
        assert(out.push(out[out.len() - dist]) =~= data.take((pos + i + 1) as int));
        lemma_copy_back(data, pos, dist, n, i + 1);
    } else {
        assert(data.take((pos + i) as int) =~= data.take((pos + n) as int));
    }
}

/// Reads the whole bytes laid out at the head of `ts`.
pub proof fn lemma_read_bytes(l: Layout, s: Seq<u8>, rest: Seq<Tok>, r: Reader) -> (r2: Reader)
    requires
        at(l, bytes_toks(s) + rest, r),
    ensures
        ({
            let c = put_all(l, bytes_toks(s) + rest).code;
            &&& read_bytes(c, r, s.len()) == Some((s, r2))
            &&& at(put_all(l, bytes_toks(s)), rest, r2)
            &&& put_all(put_all(l, bytes_toks(s)), rest).code == c
            &&& rem(c, r2) <= rem(c, r)
        }),
{
    let ts = bytes_toks(s) + rest;
    let c = put_all(l, ts).code;
    lemma_put_all_concat(l, bytes_toks(s), rest);
    lemma_put_all_bytes(l, s);
    let l2 = put_all(l, bytes_toks(s));
    assert(layout_wf(l2));
    lemma_future(l2, rest);
    assert(c.subrange(r.pos as int, (r.pos + s.len()) as int) =~= s) by {
        assert forall|k: int| 0 <= k < s.len() implies c[r.pos + k] == s[k] by {
            assert(l2.code[l.code.len() + k] == s[k]);
        }
    }
    Reader { pos: r.pos + s.len(), types: r.types, count: r.count }
}

/// The tokens that tell where a match comes from: the "same position" bit
/// after literal data, and an explicit position unless that bit is set.
pub open spec fn match_pos_toks(st: Codec, saved: nat, same: bool) -> Seq<Tok> {
    (if st.have {
        seq![Tok::Bit(same)]
    } else {
        Seq::empty()
    }) + (if !same {
        pos_toks(saved)
    } else {
        Seq::empty()
    })
}

/// Reads where a match comes from and its adjusted length.
pub proof fn lemma_read_match_pos(
    l: Layout,
    st: Codec,
    saved: nat,
    same: bool,
    len: nat,
    rest: Seq<Tok>,
    r: Reader,
) -> (r2: Reader)
    requires
        same ==> st.have && st.back == saved,
        saved < usize::MAX,
        len + 1 < usize::MAX,
        at(l, match_pos_toks(st, saved, same) + rest, r),
    ensures
        ({
            let mt = match_pos_toks(st, saved, same);
            let c = put_all(l, mt + rest).code;
            &&& read_match_pos(c, r, st, len) == Some(
                (saved, len + if !same && saved > BIG_POS_FOR_LEN { 1nat } else { 0nat }, r2),
            )
            &&& at(put_all(l, mt), rest, r2)
            &&& put_all(put_all(l, mt), rest).code == c
            &&& rem(c, r2) <= rem(c, r)
        }),
{
    let mt = match_pos_toks(st, saved, same);
    let ts = mt + rest;
    let c = put_all(l, ts).code;
    let st_toks: Seq<Tok> = if st.have { seq![Tok::Bit(same)] } else { Seq::empty() };
    let p_toks: Seq<Tok> = if !same { pos_toks(saved) } else { Seq::empty() };
    assert(ts =~= st_toks + (p_toks + rest));
    lemma_put_all_concat(l, st_toks, p_toks + rest);
    lemma_put_all_concat(l, st_toks, p_toks);
    lemma_put_all_concat(put_all(l, st_toks), p_toks, rest);
    lemma_put_all_concat(l, mt, rest);
    let l1 = put_all(l, st_toks);
    let r1 = if st.have {
        lemma_concat_first(st_toks, p_toks + rest);
        assert(st_toks.drop_first() =~= Seq::<Tok>::empty());
        assert((st_toks + (p_toks + rest)).drop_first() =~= p_toks + rest);
        lemma_read_bit(l, st_toks + (p_toks + rest), r);
        lemma_put_all_one(l, Tok::Bit(same));
        read_bit(c, r).unwrap().1
    } else {
        assert(st_toks + (p_toks + rest) =~= p_toks + rest);
        r
    };
    if same {
        assert(p_toks + rest =~= rest);
        r1
    } else {
        assert(at(l1, p_toks + rest, r1));
        if saved >= 128 {
            let b = ((saved - 128) % 128 + 128) as u8;
            let ext = ((saved - 128) / 128) as nat;
            let bt = seq![Tok::Byte(b)];
            let et = pos_len_toks(ext);
            assert(p_toks + rest =~= bt + (et + rest));
            lemma_concat_first(bt, et + rest);
            lemma_read_byte(l1, bt + (et + rest), r1);
            let r2 = read_byte(c, r1).unwrap().1;
            assert((bt + (et + rest)).drop_first() =~= et + rest);
            let l2 = put(l1, Tok::Byte(b));
            lemma_put_all_one(l1, Tok::Byte(b));
            assert(ext < usize::MAX);
            let r3 = lemma_read_len(l2, ext, 2, false, rest, r2);
            lemma_put_all_concat(l1, bt, et);
            assert(p_toks =~= bt + et);
            assert((b - 128) + ext * 128 + 128 == saved);
            r3
        } else {
            let bt = seq![Tok::Byte(saved as u8)];
            assert(p_toks == bt);
            lemma_concat_first(bt, rest);
            lemma_read_byte(l1, bt + rest, r1);
            assert((bt + rest).drop_first() =~= rest);
            lemma_put_all_one(l1, Tok::Byte(saved as u8));
            read_byte(c, r1).unwrap().1
        }
    }
}


proof fn lemma_decode_literal_step(
    c: Seq<u8>,
    r: Reader,
    out: Seq<u8>,
    st: Codec,
    r1: Reader,
    x: u8,
    r2: Reader,
)
    requires
        read_bit(c, r) == Some((true, r1)),
        read_byte(c, r1) == Some((x, r2)),
        rem(c, r2) < rem(c, r),
    ensures
        decode_from(c, r, out, st) == decode_from(c, r2, out.push(x), Codec { back: st.back, have: true }),
{
}

proof fn lemma_decode_match_step(
    c: Seq<u8>,
    r: Reader,
    out: Seq<u8>,
    st: Codec,
    r1: Reader,
    len: nat,
    r2: Reader,
    pos: nat,
    len2: nat,
    r3: Reader,
)
    requires
        read_bit(c, r) == Some((false, r1)),
        read_len(c, r1, 1) == Some((len, r2)),
        read_match_pos(c, r2, st, len) == Some((pos, len2, r3)),
        rem(c, r3) < rem(c, r),
    ensures
        pos != 0 && len2 + MIN_DICT_MATCH_LEN < usize::MAX && pos <= out.len() ==> decode_from(
            c,
            r,
            out,
            st,
        ) == decode_from(
            c,
            r3,
            copy_back(out, pos, (len2 + MIN_DICT_MATCH_LEN) as nat),
            Codec { back: pos, have: false },
        ),
        pos == 0 && len2 == CTRL_STREAM_END ==> decode_from(c, r, out, st) == Ok::<Seq<u8>, DecodeError>(out),
        pos == 0 && len2 == CTRL_LITERAL_LINE ==> decode_from(c, r, out, st) == match read_len(
            c,
            r3,
            2,
        ) {
            None => Err(DecodeError::Truncated),
            Some((n, r4)) => if n + MIN_LITERAL_LEN >= usize::MAX {
                Err(DecodeError::Truncated)
            } else {
                match read_bytes(c, r4, (n + MIN_LITERAL_LEN) as nat) {
                    None => Err(DecodeError::Truncated),
                    Some((bs, r5)) => if rem(c, r5) < rem(c, r) {
                        decode_from(c, r5, out + bs, Codec { back: st.back, have: true })
                    } else {
                        Err(DecodeError::Truncated)
                    },
                }
            },
        },
{
}

/// Literal bytes written one by one are read back in order.
pub proof fn lemma_decode_lits(l: Layout, s: Seq<u8>, rest: Seq<Tok>, r: Reader, out: Seq<u8>, st: Codec) -> (r2:
    Reader)
    requires
        at(l, lit_toks(s) + rest, r),
    ensures
        ({
            let c = put_all(l, lit_toks(s) + rest).code;
            let st2 = if s.len() > 0 { Codec { back: st.back, have: true } } else { st };
            &&& at(put_all(l, lit_toks(s)), rest, r2)
            &&& put_all(put_all(l, lit_toks(s)), rest).code == c
            &&& rem(c, r2) <= rem(c, r)
            &&& s.len() > 0 ==> rem(c, r2) < rem(c, r)
            &&& decode_from(c, r, out, st) == decode_from(c, r2, out + s, st2)
        }),
    decreases s.len(),
{
    let lt = lit_toks(s);
    let c = put_all(l, lt + rest).code;
    lemma_put_all_concat(l, lt, rest);
    if s.len() == 0 {
        assert(out + s =~= out);
        assert(lt + rest =~= rest);
        r
    } else {
        let s0 = s.drop_last();
        let x = s.last();
        let pair = seq![Tok::Bit(true), Tok::Byte(x)];
        assert(lt == lit_toks(s0) + pair);
        assert(lt + rest =~= lit_toks(s0) + (pair + rest));
        lemma_put_all_concat(l, lit_toks(s0), pair + rest);
        let r1 = lemma_decode_lits(l, s0, pair + rest, r, out, st);
        let l1 = put_all(l, lit_toks(s0));
        let st1 = if s0.len() > 0 { Codec { back: st.back, have: true } } else { st };
        lemma_concat_first(pair, rest);
        lemma_read_bit(l1, pair + rest, r1);
        let ra = read_bit(c, r1).unwrap().1;
        let la = put(l1, Tok::Bit(true));
        assert((pair + rest).drop_first() =~= seq![Tok::Byte(x)] + rest);
        lemma_concat_first(seq![Tok::Byte(x)], rest);
        lemma_read_byte(la, seq![Tok::Byte(x)] + rest, ra);
        let rb = read_byte(c, ra).unwrap().1;
        assert((seq![Tok::Byte(x)] + rest).drop_first() =~= rest);
        lemma_decode_literal_step(c, r1, out + s0, st1, ra, x, rb);
        assert((out + s0).push(x) =~= out + s);
        assert(pair =~= seq![Tok::Bit(true)] + seq![Tok::Byte(x)]);
        lemma_put_all_concat(l1, seq![Tok::Bit(true)], seq![Tok::Byte(x)]);
        lemma_put_all_one(l1, Tok::Bit(true));
        lemma_put_all_one(la, Tok::Byte(x));
        lemma_put_all_concat(l, lit_toks(s0), pair);
        rb
    }
}

/// The match-like prefix of a control code, read back: the code, saved
/// position 0, and where the reader stands after it.
pub proof fn lemma_read_ctrl(l: Layout, ctrl: nat, st: Codec, rest: Seq<Tok>, r: Reader) -> (r3: Reader)
    requires
        1 <= ctrl <= 3,
        at(l, ctrl_toks(ctrl, st.have) + rest, r),
    ensures
        ({
            let ct = ctrl_toks(ctrl, st.have);
            let c = put_all(l, ct + rest).code;
            &&& at(put_all(l, ct), rest, r3)
            &&& put_all(put_all(l, ct), rest).code == c
            &&& rem(c, r3) < rem(c, r)
            &&& exists|r1: Reader, r2: Reader|
                read_bit(c, r) == Some((false, r1)) && read_len(c, r1, 1) == Some((ctrl, r2))
                    && read_match_pos(c, r2, st, ctrl) == Some((0nat, ctrl, r3))
        }),
{
    let ct = ctrl_toks(ctrl, st.have);
    let c = put_all(l, ct + rest).code;
    let lt = dict_len_toks(ctrl);
    let mt = match_pos_toks(st, 0, false);
    let z = seq![Tok::Bit(false)];
    assert(ct =~= z + lt + mt);
    assert(ct + rest =~= z + (lt + (mt + rest)));
    lemma_put_all_concat(l, ct, rest);
    lemma_concat_first(z, lt + (mt + rest));
    lemma_read_bit(l, z + (lt + (mt + rest)), r);
    let r1 = read_bit(c, r).unwrap().1;
    let l1 = put(l, Tok::Bit(false));
    assert((z + (lt + (mt + rest))).drop_first() =~= lt + (mt + rest));
    let r2 = lemma_read_len(l1, ctrl, 1, false, mt + rest, r1);
    let l2 = put_all(l1, lt);
    lemma_put_all_concat(l1, lt, mt + rest);
    let r3 = lemma_read_match_pos(l2, st, 0, false, ctrl, rest, r2);
    lemma_put_all_concat(l2, mt, rest);
    lemma_put_all_one(l, Tok::Bit(false));
    lemma_put_all_concat(l, z, lt);
    lemma_put_all_concat(l, z + lt, mt);
    assert(read_bit(c, r) == Some((false, r1)) && read_len(c, r1, 1) == Some((ctrl, r2))
        && read_match_pos(c, r2, st, ctrl) == Some((0nat, ctrl, r3)));
    r3
}

/// The end-of-stream control ends decoding with what was written.
pub proof fn lemma_decode_end(l: Layout, st: Codec, rest: Seq<Tok>, r: Reader, out: Seq<u8>)
    requires
        at(l, end_toks(st.have) + rest, r),
    ensures
        decode_from(put_all(l, end_toks(st.have) + rest).code, r, out, st) == Ok::<Seq<u8>, DecodeError>(out),
{
    let c = put_all(l, end_toks(st.have) + rest).code;
    let r3 = lemma_read_ctrl(l, 3, st, rest, r);
    let (r1, r2) = choose|r1: Reader, r2: Reader|
        read_bit(c, r) == Some((false, r1)) && read_len(c, r1, 1) == Some((3nat, r2))
            && read_match_pos(c, r2, st, 3) == Some((0nat, 3nat, r3));
    lemma_decode_match_step(c, r, out, st, r1, 3, r2, 0, 3, r3);
}


/// A run of literal data is read back, as a literal line or byte by byte.
pub proof fn lemma_decode_data(l: Layout, s: Seq<u8>, st: Codec, rest: Seq<Tok>, r: Reader, out: Seq<u8>) -> (r2:
    Reader)
    requires
        s.len() > 0,
        s.len() < usize::MAX,
        at(l, data_toks(s, st.have) + rest, r),
    ensures
        ({
            let dt = data_toks(s, st.have);
            let c = put_all(l, dt + rest).code;
            &&& at(put_all(l, dt), rest, r2)
            &&& put_all(put_all(l, dt), rest).code == c
            &&& rem(c, r2) < rem(c, r)
            &&& decode_from(c, r, out, st) == decode_from(c, r2, out + s, Codec { back: st.back, have: true })
        }),
{
    let dt = data_toks(s, st.have);
    let c = put_all(l, dt + rest).code;
    if s.len() >= MIN_LITERAL_LEN {
        let ct = ctrl_toks(CTRL_LITERAL_LINE as nat, st.have);
        let n = (s.len() - MIN_LITERAL_LEN) as nat;
        let nt = pos_len_toks(n);
        let bt = bytes_toks(s);
        assert(dt == ct + nt + bt);
        assert(dt + rest =~= ct + (nt + (bt + rest)));
        lemma_put_all_concat(l, dt, rest);
        lemma_put_all_concat(l, ct, nt + (bt + rest));
        let r3 = lemma_read_ctrl(l, 1, st, nt + (bt + rest), r);
        let (r1, r2) = choose|r1: Reader, r2: Reader|
            read_bit(c, r) == Some((false, r1)) && read_len(c, r1, 1) == Some((1nat, r2))
                && read_match_pos(c, r2, st, 1) == Some((0nat, 1nat, r3));
        let l3 = put_all(l, ct);
        lemma_put_all_concat(l3, nt, bt + rest);
        let r4 = lemma_read_len(l3, n, 2, false, bt + rest, r3);
        let l4 = put_all(l3, nt);
        let r5 = lemma_read_bytes(l4, s, rest, r4);
        lemma_decode_match_step(c, r, out, st, r1, 1, r2, 0, 1, r3);
        assert(n + MIN_LITERAL_LEN == s.len());
        lemma_put_all_concat(l, ct, nt);
        lemma_put_all_concat(l, ct + nt, bt);
        r5
    } else {
        lemma_decode_lits(l, s, rest, r, out, st)
    }
}

/// A match is read back and copied.
pub proof fn lemma_decode_dict(
    l: Layout,
    match_len: nat,
    saved: nat,
    st: Codec,
    rest: Seq<Tok>,
    r: Reader,
    out: Seq<u8>,
) -> (r2: Reader)
    requires
        MIN_DICT_MATCH_LEN <= match_len <= MAX_MATCH_LEN,
        1 <= saved <= out.len(),
        saved < usize::MAX,
        match_len == MIN_DICT_MATCH_LEN ==> !len_reduced(saved, st),
        at(l, dict_toks(match_len, saved, st) + rest, r),
    ensures
        ({
            let dt = dict_toks(match_len, saved, st);
            let c = put_all(l, dt + rest).code;
            &&& at(put_all(l, dt), rest, r2)
            &&& put_all(put_all(l, dt), rest).code == c
            &&& decode_from(c, r, out, st) == decode_from(
                c,
                r2,
                copy_back(out, saved, match_len),
                Codec { back: saved, have: false },
            )
        }),
{
    let dt = dict_toks(match_len, saved, st);
    let c = put_all(l, dt + rest).code;
    let same = st.back == saved && st.have;
    let len = (match_len - MIN_DICT_MATCH_LEN - if len_reduced(saved, st) { 1int } else { 0int }) as nat;
    let z = seq![Tok::Bit(false)];
    let lt = dict_len_toks(len);
    let mt = match_pos_toks(st, saved, same);
    assert(dt =~= z + lt + mt);
    assert(dt + rest =~= z + (lt + (mt + rest)));
    lemma_put_all_concat(l, dt, rest);
    lemma_concat_first(z, lt + (mt + rest));
    lemma_read_bit(l, z + (lt + (mt + rest)), r);
    let r1 = read_bit(c, r).unwrap().1;
    let l1 = put(l, Tok::Bit(false));
    assert((z + (lt + (mt + rest))).drop_first() =~= lt + (mt + rest));
    let r2 = lemma_read_len(l1, len, 1, false, mt + rest, r1);
    let l2 = put_all(l1, lt);
    lemma_put_all_concat(l1, lt, mt + rest);
    let r3 = lemma_read_match_pos(l2, st, saved, same, len, rest, r2);
    lemma_put_all_concat(l2, mt, rest);
    lemma_put_all_one(l, Tok::Bit(false));
    lemma_put_all_concat(l, z, lt);
    lemma_put_all_concat(l, z + lt, mt);
    let len2 = len + if !same && saved > BIG_POS_FOR_LEN { 1nat } else { 0nat };
    assert(len2 + MIN_DICT_MATCH_LEN == match_len);
    lemma_decode_match_step(c, r, out, st, r1, len, r2, saved, len2, r3);
    r3
}

/// The end of the input: pending literals, then the end-of-stream control.
proof fn lemma_decode_greedy_end(
    data: Seq<u8>,
    lit: nat,
    st: Codec,
    l: Layout,
    rest: Seq<Tok>,
    r: Reader,
)
    requires
        data.len() < usize::MAX,
        lit <= data.len(),
        at(
            l,
            flush_toks(data, lit, data.len(), st).0 + end_toks(flush_toks(data, lit, data.len(), st).1.have)
                + rest,
            r,
        ),
    ensures
        decode_from(
            put_all(
                l,
                flush_toks(data, lit, data.len(), st).0 + end_toks(
                    flush_toks(data, lit, data.len(), st).1.have,
                ) + rest,
            ).code,
            r,
            data.take(lit as int),
            st,
        ) == Ok::<Seq<u8>, DecodeError>(data),
{
    let f = flush_toks(data, lit, data.len(), st);
    let et = end_toks(f.1.have);
    let g = f.0 + et;
    let out = data.take(lit as int);
    assert(g + rest =~= f.0 + (et + rest));
    lemma_put_all_concat(l, f.0, et + rest);
    if lit < data.len() {
        let s = data.subrange(lit as int, data.len() as int);
        let r2 = lemma_decode_data(l, s, st, et + rest, r, out);
        assert(out + s =~= data);
        lemma_decode_end(put_all(l, f.0), f.1, rest, r2, data);
    } else {
        assert(f.0 + (et + rest) =~= et + rest);
        assert(out =~= data);
        lemma_decode_end(l, st, rest, r, out);
    }
}

/// Pending literals and a match: after them `data[..pos + match_len]` is
/// written and the reader stands after the match.
proof fn lemma_decode_greedy_match(
    data: Seq<u8>,
    dict_size: nat,
    pos: nat,
    lit: nat,
    st: Codec,
    l: Layout,
    more: Seq<Tok>,
    r: Reader,
) -> (r2: Reader)
    requires
        data.len() < usize::MAX,
        lit <= pos < data.len(),
        ({
            let m = best_match(data, pos, dict_size);
            let f = flush_toks(data, lit, pos, st);
            &&& m.0 >= MIN_DICT_MATCH_LEN
            &&& m.0 + pos <= data.len()
            &&& !(m.0 == MIN_DICT_MATCH_LEN && len_reduced(m.1, f.1))
            &&& at(l, f.0 + dict_toks(m.0, m.1, f.1) + more, r)
        }),
    ensures
        ({
            let m = best_match(data, pos, dict_size);
            let f = flush_toks(data, lit, pos, st);
            let t = f.0 + dict_toks(m.0, m.1, f.1);
            let c = put_all(l, t + more).code;
            &&& at(put_all(l, t), more, r2)
            &&& put_all(put_all(l, t), more).code == c
            &&& decode_from(c, r, data.take(lit as int), st) == decode_from(
                c,
                r2,
                data.take((pos + m.0) as int),
                Codec { back: m.1, have: false },
            )
        }),
{
    let m = best_match(data, pos, dict_size);
    lemma_best_match_bounds(data, pos, dict_size);
    let f = flush_toks(data, lit, pos, st);
    let dt = dict_toks(m.0, m.1, f.1);
    let out = data.take(lit as int);
    let t = f.0 + dt;
    assert(t + more =~= f.0 + (dt + more));
    lemma_put_all_concat(l, f.0, dt + more);
    lemma_put_all_concat(l, f.0, dt);
    lemma_put_all_concat(l, t, more);
    let l1 = put_all(l, f.0);
    let r1 = if lit < pos {
        let s = data.subrange(lit as int, pos as int);
        let r1 = lemma_decode_data(l, s, st, dt + more, r, out);
        assert(out + s =~= data.take(pos as int));
        r1
    } else {
        assert(f.0 + (dt + more) =~= dt + more);
        assert(out =~= data.take(pos as int));
        r
    };
    let out1 = data.take(pos as int);
    lemma_put_all_concat(l1, dt, more);
    let r2 = lemma_decode_dict(l1, m.0, m.1, f.1, more, r1, out1);
    lemma_copy_back(data, pos, m.1, m.0, 0);
    r2
}

/// Decoding the tokens that greedy compression writes from `pos` on, with
/// `data[..lit]` already written, finishes the input.
pub proof fn lemma_decode_greedy(
    data: Seq<u8>,
    dict_size: nat,
    pos: nat,
    lit: nat,
    st: Codec,
    l: Layout,
    rest: Seq<Tok>,
    r: Reader,
)
    requires
        data.len() < usize::MAX,
        lit <= pos <= data.len(),
        greedy(data, dict_size, pos, lit, st) is Some,
        at(l, greedy(data, dict_size, pos, lit, st).unwrap() + rest, r),
    ensures
        decode_from(
            put_all(l, greedy(data, dict_size, pos, lit, st).unwrap() + rest).code,
            r,
            data.take(lit as int),
            st,
        ) == Ok::<Seq<u8>, DecodeError>(data),
    decreases data.len() - pos,
{
    let g = greedy(data, dict_size, pos, lit, st).unwrap();
    if pos >= data.len() {
        lemma_decode_greedy_end(data, lit, st, l, rest, r);
    } else {
        let m = best_match(data, pos, dict_size);
        if m.0 >= MIN_DICT_MATCH_LEN && m.0 + pos <= data.len() {
            let f = flush_toks(data, lit, pos, st);
            let next = (pos + m.0) as nat;
            let st2 = Codec { back: m.1, have: false };
            let g2 = greedy(data, dict_size, next, next, st2).unwrap();
            let t = f.0 + dict_toks(m.0, m.1, f.1);
            assert(g == t + g2);
            assert(g + rest =~= t + (g2 + rest));
            let r2 = lemma_decode_greedy_match(data, dict_size, pos, lit, st, l, g2 + rest, r);
            lemma_decode_greedy(data, dict_size, next, next, st2, put_all(l, t), rest, r2);
        } else {
            lemma_decode_greedy(data, dict_size, pos + 1, lit, st, l, rest, r);
        }
    }
}

/// Decompressing what `tuz_compress` produced gives back the input.
pub proof fn lemma_tuz_roundtrip(data: Seq<u8>, dict_size: nat)
    requires
        compressible(data, dict_size),
        data.len() < usize::MAX,
    ensures
        tuz_decompressed(tuz_compressed(data, dict_size)) == Some(data),
{
    let g = greedy(data, dict_size, 0, 0, initial_codec()).unwrap();
    let h = header_toks(dict_size);
    let c = tuz_compressed(data, dict_size);
    lemma_put_all_concat(empty_layout(), h, g);
    reveal_with_fuel(put_all, 5);
    assert(h.drop_first().drop_first().drop_first().drop_first() =~= Seq::<Tok>::empty());
    let l = put_all(empty_layout(), h);
    assert(l.code.len() == 4);
    assert(l.count == 0);
    assert(g + Seq::<Tok>::empty() =~= g);
    lemma_put_all_wf(empty_layout(), h);
    lemma_future(l, g);
    let r = Reader { pos: 4, types: 0, count: 0 };
    assert(at(l, g + Seq::<Tok>::empty(), r));
    lemma_decode_greedy(data, dict_size, 0, 0, initial_codec(), l, Seq::empty(), r);
    assert(data.take(0) =~= Seq::<u8>::empty());
}


// ---------------------------------------------------------------------------
// The decompressor
pub proof fn lemma_rem_byte(c: Seq<u8>, r: Reader)
    requires
        reader_ok(c, r),
        read_byte(c, r) is Some,
    ensures
        rem(c, read_byte(c, r).unwrap().1) < rem(c, r),
        reader_ok(c, read_byte(c, r).unwrap().1),
{
}

pub proof fn lemma_rem_bytes(c: Seq<u8>, r: Reader, n: nat)
    requires
        reader_ok(c, r),
        read_bytes(c, r, n) is Some,
    ensures
        rem(c, read_bytes(c, r, n).unwrap().1) <= rem(c, r),
        reader_ok(c, read_bytes(c, r, n).unwrap().1),
{
}

pub proof fn lemma_rem_digit(c: Seq<u8>, r: Reader, pack_bit: nat)
    requires
        reader_ok(c, r),
        read_digit(c, r, pack_bit) is Some,
    ensures
        rem(c, read_digit(c, r, pack_bit).unwrap().1) < rem(c, r),
        reader_ok(c, read_digit(c, r, pack_bit).unwrap().1),
{
    lemma_rem_bit(c, r);
    if pack_bit != 1 {
        lemma_rem_bit(c, read_bit(c, r).unwrap().1);
    }
}

pub proof fn lemma_rem_len(c: Seq<u8>, r: Reader, pack_bit: nat, acc: nat)
    requires
        reader_ok(c, r),
        read_len_from(c, r, pack_bit, acc) is Some,
    ensures
        rem(c, read_len_from(c, r, pack_bit, acc).unwrap().1) < rem(c, r),
        reader_ok(c, read_len_from(c, r, pack_bit, acc).unwrap().1),
        read_len_from(c, r, pack_bit, acc).unwrap().0 < usize::MAX,
    decreases rem(c, r),
{
    lemma_rem_digit(c, r, pack_bit);
    let r1 = read_digit(c, r, pack_bit).unwrap().1;
    lemma_rem_bit(c, r1);
    let (cont, r2) = read_bit(c, r1).unwrap();
    let d = read_digit(c, r, pack_bit).unwrap().0;
    let a = acc * pack_base(pack_bit) + d;
    if a < usize::MAX && cont && rem(c, r2) < rem(c, r) {
        lemma_rem_len(c, r2, pack_bit, a + 1);
    }
}

pub proof fn lemma_rem_match_pos(c: Seq<u8>, r: Reader, st: Codec, len: nat)
    requires
        reader_ok(c, r),
        read_match_pos(c, r, st, len) is Some,
    ensures
        rem(c, read_match_pos(c, r, st, len).unwrap().2) <= rem(c, r),
        reader_ok(c, read_match_pos(c, r, st, len).unwrap().2),
        read_match_pos(c, r, st, len).unwrap().1 < usize::MAX || read_match_pos(c, r, st, len).unwrap().1
            == len,
{
    let same = if st.have { read_bit(c, r) } else { Some((false, r)) };
    if st.have {
        lemma_rem_bit(c, r);
    }
    let (sb, r1) = same.unwrap();
    if !sb {
        lemma_rem_byte(c, r1);
        let (b, r2) = read_byte(c, r1).unwrap();
        if b >= 128 {
            lemma_rem_len(c, r2, 2, 0);
        }
    }
}

/// Reads the compressed stream: position of the next byte, the unused type
/// bits and their count.
struct BitReader {
    pos: usize,
    types: u8,
    count: usize,
}

impl BitReader {
    spec fn reader(&self) -> Reader {
        Reader { pos: self.pos as nat, types: self.types as nat, count: self.count as nat }
    }

    fn read_bit(&mut self, code: &[u8]) -> (b: Option<bool>)
        requires
            reader_ok(code@, old(self).reader()),
        ensures
            b is Some <==> read_bit(code@, old(self).reader()) is Some,
            b is Some ==> b == Some(read_bit(code@, old(self).reader()).unwrap().0) && final(self).reader()
                == read_bit(code@, old(self).reader()).unwrap().1,
            reader_ok(code@, final(self).reader()),
    {
        if self.count == 0 {
            if self.pos < code.len() {
                let v = code[self.pos];
                self.pos = self.pos + 1;
                self.types = v / 2;
                self.count = 7;
                Some(v % 2 == 1)
            } else {
                None
            }
        } else {
            let b = self.types % 2 == 1;
            self.types = self.types / 2;
            self.count = self.count - 1;
            Some(b)
        }
    }

    fn read_byte(&mut self, code: &[u8]) -> (b: Option<u8>)
        requires
            reader_ok(code@, old(self).reader()),
        ensures
            b is Some <==> read_byte(code@, old(self).reader()) is Some,
            b is Some ==> b == Some(read_byte(code@, old(self).reader()).unwrap().0) && final(self).reader()
                == read_byte(code@, old(self).reader()).unwrap().1,
            reader_ok(code@, final(self).reader()),
    {
        if self.pos < code.len() {
            let v = code[self.pos];
            self.pos = self.pos + 1;
            Some(v)
        } else {
            None
        }
    }

    fn read_digit(&mut self, code: &[u8], pack_bit: usize) -> (d: Option<usize>)
        requires
            reader_ok(code@, old(self).reader()),
        ensures
            d is Some <==> read_digit(code@, old(self).reader(), pack_bit as nat) is Some,
            d is Some ==> d.unwrap() as nat == read_digit(code@, old(self).reader(), pack_bit as nat).unwrap().0
                && final(self).reader() == read_digit(code@, old(self).reader(), pack_bit as nat).unwrap().1,
            reader_ok(code@, final(self).reader()),
    {
        let b0 = match self.read_bit(code) {
            Some(b) => b,
            None => return None,
        };
        let d0: usize = if b0 { 1 } else { 0 };
        if pack_bit == 1 {
            Some(d0)
        } else {
            let b1 = match self.read_bit(code) {
                Some(b) => b,
                None => return None,
            };
            Some(d0 + if b1 { 2 } else { 0 })
        }
    }

    fn read_len(&mut self, code: &[u8], pack_bit: usize) -> (v: Option<usize>)
        requires
            reader_ok(code@, old(self).reader()),
            pack_bit == 1 || pack_bit == 2,
        ensures
            v is Some <==> read_len(code@, old(self).reader(), pack_bit as nat) is Some,
            v is Some ==> v.unwrap() as nat == read_len(code@, old(self).reader(), pack_bit as nat).unwrap().0
                && final(self).reader() == read_len(code@, old(self).reader(), pack_bit as nat).unwrap().1,
            reader_ok(code@, final(self).reader()),
    {
        let ghost c = code@;
        let ghost r0 = self.reader();
        let base: usize = if pack_bit == 1 { 2 } else { 4 };
        let mut acc: usize = 0;
        loop
            invariant
                c == code@,
                r0 == old(self).reader(),
                reader_ok(c, self.reader()),
                base as nat == pack_base(pack_bit as nat),
                pack_bit == 1 || pack_bit == 2,
                read_len(c, r0, pack_bit as nat) == read_len_from(c, self.reader(), pack_bit as nat, acc as nat),
            decreases rem(c, self.reader()),
        {
            let ghost r = self.reader();
            let d = match self.read_digit(code, pack_bit) {
                Some(d) => d,
                None => {
                    assert(read_len_from(c, r, pack_bit as nat, acc as nat) is None);
                    return None;
                },
            };
            let ghost r1 = self.reader();
            proof { lemma_rem_digit(c, r, pack_bit as nat); }
            let cont = match self.read_bit(code) {
                Some(b) => b,
                None => {
                    assert(read_len_from(c, r, pack_bit as nat, acc as nat) is None);
                    return None;
                },
            };
            let ghost r2 = self.reader();
            proof { lemma_rem_bit(c, r1); }
            let ghost a_spec = acc as nat * pack_base(pack_bit as nat) + d as nat;
            let a = match acc.checked_mul(base) {
                Some(m) => match m.checked_add(d) {
                    Some(a) => a,
                    None => {
                        assert(read_len_from(c, r, pack_bit as nat, acc as nat) is None);
                        return None;
                    },
                },
                None => {
                    assert(acc as nat * pack_base(pack_bit as nat) > usize::MAX) by (nonlinear_arith)
                        requires acc * base > usize::MAX, base as nat == pack_base(pack_bit as nat);
                    assert(read_len_from(c, r, pack_bit as nat, acc as nat) is None);
                    return None;
                },
            };
            assert(a as nat == a_spec);
            if a == usize::MAX {
                assert(read_len_from(c, r, pack_bit as nat, acc as nat) is None);
                return None;
            }
            if !cont {
                assert(read_len_from(c, r, pack_bit as nat, acc as nat) == Some((a as nat, r2)));
                return Some(a);
            }
            assert(read_len_from(c, r, pack_bit as nat, acc as nat) == read_len_from(c, r2, pack_bit as nat, a as nat + 1));
            acc = a + 1;
        }
    }

    fn read_match_pos(&mut self, code: &[u8], have: bool, back: usize, len: usize) -> (r: Option<
        (usize, usize),
    >)
        requires
            reader_ok(code@, old(self).reader()),
        ensures
            ({
                let st = Codec { back: back as nat, have };
                let s = read_match_pos(code@, old(self).reader(), st, len as nat);
                &&& r is Some <==> s is Some
                &&& r is Some ==> r.unwrap().0 as nat == s.unwrap().0 && r.unwrap().1 as nat == s.unwrap().1
                    && final(self).reader() == s.unwrap().2
            }),
            reader_ok(code@, final(self).reader()),
    {
        let same = if have {
            match self.read_bit(code) {
                Some(b) => b,
                None => return None,
            }
        } else {
            false
        };
        if same {
            return Some((back, len));
        }
        let b = match self.read_byte(code) {
            Some(b) => b,
            None => return None,
        };
        if b < 128 {
            return Some((b as usize, len));
        }
        let ext = match self.read_len(code, 2) {
            Some(e) => e,
            None => return None,
        };
        let pos = match ext.checked_mul(128) {
            Some(m) => match m.checked_add((b - 128) as usize) {
                Some(p) => match p.checked_add(128) {
                    Some(p) => p,
                    None => return None,
                },
                None => return None,
            },
            None => return None,
        };
        if pos == usize::MAX {
            return None;
        }
        if pos > BIG_POS_FOR_LEN {
            if len >= usize::MAX - 1 {
                return None;
            }
            Some((pos, len + 1))
        } else {
            Some((pos, len))
        }
    }
}

#[verifier::rlimit(60)]
/// Decompresses a tinyuz stream: skips the 4-byte dictionary size, then
/// reads literals, matches and controls until the end-of-stream control.
pub fn tuz_decompress(compressed: &[u8], original_size: usize) -> (r: Result<Vec<u8>, &'static str>)
    ensures
        match (r, tuz_decode(compressed@)) {
            (Ok(v), Ok(w)) => v@ == w,
            (Err(m), Err(e)) => m@ == decode_error_text(e),
            _ => false,
        },
{
    let ghost c = compressed@;
    if compressed.len() < 4 {
        return Err("too short");
    }
    let mut rd = BitReader { pos: 4, types: 0, count: 0 };
    let mut out: Vec<u8> = Vec::with_capacity(original_size);
    let mut dict_pos_back: usize = 1;
    let mut is_have_data_back = false;
    loop
        invariant
            c == compressed@,
            reader_ok(c, rd.reader()),
            tuz_decode(c) == decode_from(
                c,
                rd.reader(),
                out@,
                Codec { back: dict_pos_back as nat, have: is_have_data_back },
            ),
        decreases rem(c, rd.reader()),
    {
        let ghost r = rd.reader();
        let ghost st = Codec { back: dict_pos_back as nat, have: is_have_data_back };
        let t = match rd.read_bit(compressed) {
            Some(t) => t,
            None => return Err("unexpected end of input"),
        };
        let ghost r1 = rd.reader();
        proof { lemma_rem_bit(c, r); }
        if t {
            let x = match rd.read_byte(compressed) {
                Some(x) => x,
                None => return Err("unexpected end of input"),
            };
            proof { lemma_rem_byte(c, r1); }
            out.push(x);
            is_have_data_back = true;
        } else {
            let len = match rd.read_len(compressed, 1) {
                Some(l) => l,
                None => return Err("unexpected end of input"),
            };
            let ghost r2 = rd.reader();
            proof { lemma_rem_len(c, r1, 1, 0); }
            let (pos, len2) = match rd.read_match_pos(compressed, is_have_data_back, dict_pos_back, len) {
                Some(p) => p,
                None => return Err("unexpected end of input"),
            };
            let ghost r3 = rd.reader();
            proof { lemma_rem_match_pos(c, r2, st, len as nat); }
            is_have_data_back = false;
            if pos != 0 {
                if len2 >= usize::MAX - MIN_DICT_MATCH_LEN || pos > out.len() {
                    return Err("dict pos out of range");
                }
                let match_len = len2 + MIN_DICT_MATCH_LEN;
                dict_pos_back = pos;
                let ghost out0 = out@;
                let mut i: usize = 0;
                while i < match_len
                    invariant
                        i <= match_len,
                        pos <= out@.len(),
                        pos >= 1,
                        copy_back(out0, pos as nat, match_len as nat) == copy_back(
                            out@,
                            pos as nat,
                            (match_len - i) as nat,
                        ),
                    decreases match_len - i,
                {
                    let b = out[out.len() - pos];
                    out.push(b);
                    i = i + 1;
                }
            } else if len2 == CTRL_LITERAL_LINE {
                is_have_data_back = true;
                let n = match rd.read_len(compressed, 2) {
                    Some(n) => n,
                    None => return Err("unexpected end of input"),
                };
                let ghost r4 = rd.reader();
                proof { lemma_rem_len(c, r3, 2, 0); }
                if n >= usize::MAX - MIN_LITERAL_LEN {
                    return Err("unexpected end of input");
                }
                let lit_len = n + MIN_LITERAL_LEN;
                if lit_len > compressed.len() || rd.pos > compressed.len() - lit_len {
                    return Err("unexpected end of input");
                }
                let mut k: usize = 0;
                let ghost out0 = out@;
                while k < lit_len
                    invariant
                        k <= lit_len,
                        rd.pos + lit_len <= c.len(),
                        c.len() <= usize::MAX,
                        c == compressed@,
                        out@ == out0 + c.subrange(rd.pos as int, (rd.pos + k) as int),
                    decreases lit_len - k,
                {
                    out.push(compressed[rd.pos + k]);
                    k = k + 1;
                    assert(out@ =~= out0 + c.subrange(rd.pos as int, (rd.pos + k) as int));
                }
                rd.pos = rd.pos + lit_len;
                proof { lemma_rem_bytes(c, r4, lit_len as nat); }
            } else if len2 == 2 {
                rd.count = 0;
                dict_pos_back = 1;
            } else if len2 == CTRL_STREAM_END {
                return Ok(out);
            } else {
                return Err("unknown control type");
            }
        }
    }
}

} // verus!