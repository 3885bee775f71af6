use vstd::prelude::*;

verus! {

/// The parameter types the event codec understands. A dynamic kind
/// (`Bytes`, `Str`) lives in the data section behind an offset word; every
/// other supported kind is one 32-byte word. `DynamicComposite` stands for
/// any dynamic composite declared type (an array, or a tuple holding a
/// dynamic member): it occupies one offset word, its payload is not
/// inspected, and its decoded field is null. `Unsupported` stands for what
/// is left — a static composite (a fixed array or all-static tuple), which
/// inlines several words whose width the kind does not carry, so an event
/// declaring one never matches a log.
#[derive(Clone, Copy, Debug, PartialEq, Eq, Structural)]
pub enum ParamKind {
    Address,
    Uint,
    Int,
    Bool,
    Bytes,
    Str,
    FixedBytes(usize),
    DynamicComposite,
    Unsupported,
}

/// One declared event parameter.
#[derive(Clone, Debug)]
pub struct EventParam {
    pub name: String,
    pub kind: ParamKind,
    pub indexed: bool,
}

/// One event as the ABI declares it: its name, its signature hash
/// (topic zero), and its parameters in declared order. Every event matches
/// by its signature topic; an anonymous event, which a node delivers
/// without one, never matches.
#[derive(Clone, Debug)]
pub struct EventSchema {
    pub name: String,
    pub topic0: Vec<u8>,
    pub params: Vec<EventParam>,
}

/// One raw log as the transport hands it over.
#[derive(Clone, Debug)]
pub struct RawLog {
    pub topics: Vec<Vec<u8>>,
    pub data: Vec<u8>,
    pub block_number: Option<u64>,
    pub transaction_hash: Option<Vec<u8>>,
}

/// A decoded parameter value.
#[derive(Clone, Debug)]
pub enum TokenValue {
    Address(Vec<u8>),
    Uint(Vec<u8>),
    Int(Vec<u8>),
    Bool(bool),
    Bytes(Vec<u8>),
    Str(String),
    FixedBytes(Vec<u8>),
    /// A composite value carried through undecoded; it is persisted as null.
    Opaque,
}

/// The mathematical value of a decoded parameter.
pub enum TokenV {
    Address(Seq<u8>),
    Uint(Seq<u8>),
    Int(Seq<u8>),
    Bool(bool),
    Bytes(Seq<u8>),
    Str(Seq<char>),
    FixedBytes(Seq<u8>),
    Opaque,
}

impl View for TokenValue {
    type V = TokenV;

    open spec fn view(&self) -> TokenV {
        match self {
            TokenValue::Address(v) => TokenV::Address(v@),
            TokenValue::Uint(v) => TokenV::Uint(v@),
            TokenValue::Int(v) => TokenV::Int(v@),
            TokenValue::Bool(b) => TokenV::Bool(*b),
            TokenValue::Bytes(v) => TokenV::Bytes(v@),
            TokenValue::Str(s) => TokenV::Str(s@),
            TokenValue::FixedBytes(v) => TokenV::FixedBytes(v@),
            TokenValue::Opaque => TokenV::Opaque,
        }
    }
}

/// The mathematical value of one declared parameter.
pub struct ParamV {
    pub name: Seq<char>,
    pub kind: ParamKind,
    pub indexed: bool,
}

impl View for EventParam {
    type V = ParamV;

    open spec fn view(&self) -> ParamV {
        ParamV { name: self.name@, kind: self.kind, indexed: self.indexed }
    }
}

/// The mathematical value of one declared event.
pub struct SchemaV {
    pub name: Seq<char>,
    pub topic0: Seq<u8>,
    pub params: Seq<ParamV>,
}

/// The declared parameters, each as its mathematical value.
pub open spec fn params_deep_view(params: Seq<EventParam>) -> Seq<ParamV> {
    Seq::new(params.len(), |i: int| params[i]@)
}

/// The topic words, each as its byte sequence.
pub open spec fn topics_deep_view(topics: Seq<Vec<u8>>) -> Seq<Seq<u8>> {
    Seq::new(topics.len(), |i: int| topics[i]@)
}

/// The decoded tokens, each as its mathematical value.
pub open spec fn tokens_deep_view(tokens: Seq<TokenValue>) -> Seq<TokenV> {
    Seq::new(tokens.len(), |i: int| tokens[i]@)
}

/// The declared events, each as its mathematical value.
pub open spec fn schemas_deep_view(schemas: Seq<EventSchema>) -> Seq<SchemaV> {
    Seq::new(schemas.len(), |i: int| schemas[i]@)
}

impl View for EventSchema {
    type V = SchemaV;

    open spec fn view(&self) -> SchemaV {
        SchemaV {
            name: self.name@,
            topic0: self.topic0@,
            params: params_deep_view(self.params@),
        }
    }
}

/// The mathematical value of one raw log.
pub struct RawLogV {
    pub topics: Seq<Seq<u8>>,
    pub data: Seq<u8>,
    pub block_number: Option<u64>,
    pub transaction_hash: Option<Seq<u8>>,
}

impl View for RawLog {
    type V = RawLogV;

    open spec fn view(&self) -> RawLogV {
        RawLogV {
            topics: topics_deep_view(self.topics@),
            data: self.data@,
            block_number: self.block_number,
            transaction_hash: match self.transaction_hash {
                Some(ref h) => Some(h@),
                None => None,
            },
        }
    }
}

/// `n` zero bytes.
pub open spec fn zeros(n: int) -> Seq<u8> {
    Seq::new(n as nat, |i: int| 0u8)
}

/// The length `n` rounded up to a whole number of 32-byte words.
pub open spec fn pad32_len(n: int) -> int {
    ((n + 31) / 32) * 32
}

/// 256 to the power `w`.
pub open spec fn pow256(w: int) -> int
    decreases w,
{
    if w <= 0 {
        1
    } else {
        256 * pow256(w - 1)
    }
}

/// The big-endian spelling of `n` in `w` bytes.
pub open spec fn be_bytes(n: int, w: int) -> Seq<u8>
    decreases w,
{
    if w <= 0 {
        Seq::<u8>::empty()
    } else {
        be_bytes(n / 256, w - 1) + seq![(n % 256) as u8]
    }
}

/// The value a big-endian byte sequence spells.
pub open spec fn be_value(bytes: Seq<u8>) -> int
    decreases bytes.len(),
{
    if bytes.len() == 0 {
        0
    } else {
        be_value(bytes.drop_last()) * 256 + bytes.last()
    }
}

/// One 32-byte big-endian word spelling `n`.
pub open spec fn be_word(n: int) -> Seq<u8> {
    be_bytes(n, 32)
}

pub proof fn lemma_pow256_positive(w: int)
    ensures
        pow256(w) >= 1,
    decreases w,
{
    if w > 0 {
        lemma_pow256_positive(w - 1);
    }
}

pub proof fn lemma_be_bytes_len(n: int, w: int)
    requires
        w >= 0,
    ensures
        be_bytes(n, w).len() == w,
    decreases w,
{
    if w > 0 {
        lemma_be_bytes_len(n / 256, w - 1);
    }
}

/// Writing a value in `w` big-endian bytes and reading it back returns the
/// value, as long as it fits.
pub proof fn lemma_be_bytes_value(n: int, w: int)
    requires
        w >= 0,
        0 <= n < pow256(w),
    ensures
        be_value(be_bytes(n, w)) == n,
    decreases w,
{
    if w > 0 {
        lemma_pow256_positive(w - 1);
        assert(n / 256 < pow256(w - 1)) by {
            assert(n < 256 * pow256(w - 1));
        }
        lemma_be_bytes_value(n / 256, w - 1);
        lemma_be_bytes_len(n / 256, w - 1);
        let whole = be_bytes(n, w);
        assert(whole.drop_last() =~= be_bytes(n / 256, w - 1));
        assert(whole.last() == (n % 256) as u8);
    }
}

pub proof fn lemma_be_value_bound(bytes: Seq<u8>)
    ensures
        0 <= be_value(bytes) < pow256(bytes.len() as int),
    decreases bytes.len(),
{
    if bytes.len() == 0 {
    } else {
        lemma_be_value_bound(bytes.drop_last());
        lemma_pow256_positive(bytes.len() - 1);
        assert(be_value(bytes.drop_last()) * 256 + bytes.last() < pow256(bytes.len() - 1) * 256)
            by {
            assert(be_value(bytes.drop_last()) <= pow256(bytes.len() - 1) - 1);
            assert((pow256(bytes.len() - 1) - 1) * 256 + 255 < pow256(bytes.len() - 1) * 256);
        }
    }
}

pub proof fn lemma_be_value_zeros(bytes: Seq<u8>)
    requires
        forall|i: int| 0 <= i < bytes.len() ==> bytes[i] == 0,
    ensures
        be_value(bytes) == 0,
    decreases bytes.len(),
{
    if bytes.len() > 0 {
        lemma_be_value_zeros(bytes.drop_last());
    }
}

/// Leading zero bytes do not change the value.
pub proof fn lemma_be_value_leading_zeros(prefix: Seq<u8>, rest: Seq<u8>)
    requires
        forall|i: int| 0 <= i < prefix.len() ==> prefix[i] == 0,
    ensures
        be_value(prefix + rest) == be_value(rest),
    decreases rest.len(),
{
    if rest.len() == 0 {
        assert(prefix + rest =~= prefix);
        lemma_be_value_zeros(prefix);
    } else {
        assert((prefix + rest).drop_last() =~= prefix + rest.drop_last());
        assert((prefix + rest).last() == rest.last());
        lemma_be_value_leading_zeros(prefix, rest.drop_last());
    }
}

/// Kinds encoded in place as one word.
pub open spec fn is_static_kind(k: ParamKind) -> bool {
    match k {
        ParamKind::Address => true,
        ParamKind::Uint => true,
        ParamKind::Int => true,
        ParamKind::Bool => true,
        ParamKind::FixedBytes(_) => true,
        ParamKind::Bytes => false,
        ParamKind::Str => false,
        ParamKind::DynamicComposite => false,
        ParamKind::Unsupported => false,
    }
}

/// Kinds encoded behind an offset word.
pub open spec fn is_dynamic_kind(k: ParamKind) -> bool {
    k == ParamKind::Bytes || k == ParamKind::Str
}

/// A token value carries the bytes its kind demands.
pub open spec fn token_matches_kind(t: TokenV, k: ParamKind) -> bool {
    match t {
        TokenV::Address(a) => k == ParamKind::Address && a.len() == 20,
        TokenV::Uint(b) => k == ParamKind::Uint && b.len() == 32,
        TokenV::Int(b) => k == ParamKind::Int && b.len() == 32,
        TokenV::Bool(_) => k == ParamKind::Bool,
        TokenV::Bytes(_) => k == ParamKind::Bytes,
        TokenV::Str(_) => k == ParamKind::Str,
        TokenV::FixedBytes(fb) => exists|n: usize|
            k == ParamKind::FixedBytes(n) && fb.len() == n && 1 <= n <= 32,
        TokenV::Opaque => false,
    }
}

/// A token shaped well enough to occupy its encoding slot.
pub open spec fn wf_token(t: TokenV) -> bool {
    match t {
        TokenV::Address(a) => a.len() == 20,
        TokenV::Uint(b) => b.len() == 32,
        TokenV::Int(b) => b.len() == 32,
        TokenV::Bool(_) => true,
        TokenV::Bytes(_) => true,
        TokenV::Str(_) => true,
        TokenV::FixedBytes(fb) => 1 <= fb.len() <= 32,
        TokenV::Opaque => true,
    }
}

/// A token that lives in the tail of the data section.
pub open spec fn is_dynamic_token(t: TokenV) -> bool {
    match t {
        TokenV::Bytes(_) => true,
        TokenV::Str(_) => true,
        _ => false,
    }
}

/// The word a static token occupies: addresses right-aligned, booleans a
/// trailing 0 or 1, fixed bytes left-aligned.
pub open spec fn spec_static_word(t: TokenV) -> Seq<u8> {
    match t {
        TokenV::Address(a) => zeros(12) + a,
        TokenV::Uint(b) => b,
        TokenV::Int(b) => b,
        TokenV::Bool(b) => zeros(31) + seq![if b { 1u8 } else { 0u8 }],
        TokenV::FixedBytes(fb) => fb + zeros(32 - fb.len()),
        TokenV::Bytes(_) => zeros(32),
        TokenV::Str(_) => zeros(32),
        TokenV::Opaque => zeros(32),
    }
}

/// The payload bytes of a dynamic token; a string's characters in UTF-8.
pub open spec fn spec_dyn_content(t: TokenV) -> Seq<u8> {
    match t {
        TokenV::Bytes(b) => b,
        TokenV::Str(s) => vstd::utf8::encode_utf8(s),
        _ => Seq::<u8>::empty(),
    }
}

/// How many bytes a token adds to the tail: its length word plus its
/// payload padded to whole words; nothing for a static token.
pub open spec fn spec_tail_len(t: TokenV) -> int {
    if is_dynamic_token(t) {
        32 + pad32_len(spec_dyn_content(t).len() as int)
    } else {
        0
    }
}

/// The tail bytes of a token: length word, payload, zero padding.
pub open spec fn spec_tail(t: TokenV) -> Seq<u8> {
    if is_dynamic_token(t) {
        let c = spec_dyn_content(t);
        be_word(c.len() as int) + c + zeros(pad32_len(c.len() as int) - c.len())
    } else {
        Seq::<u8>::empty()
    }
}

/// The tail bytes laid down by the tokens before `i`.
pub open spec fn tails_prefix_len(ts: Seq<TokenV>, i: int) -> int
    decreases i,
{
    if i <= 0 {
        0
    } else {
        tails_prefix_len(ts, i - 1) + spec_tail_len(ts[i - 1])
    }
}

/// Where token `i`'s tail begins, measured from the start of the data
/// section: the offset its head word spells.
pub open spec fn spec_offset(ts: Seq<TokenV>, i: int) -> int {
    32 * ts.len() + tails_prefix_len(ts, i)
}

/// The head word of token `i`: its value for a static token, the offset of
/// its tail for a dynamic one.
pub open spec fn spec_head_word(ts: Seq<TokenV>, i: int) -> Seq<u8> {
    if is_dynamic_token(ts[i]) {
        be_word(spec_offset(ts, i))
    } else {
        spec_static_word(ts[i])
    }
}

pub open spec fn heads_from(ts: Seq<TokenV>, i: int) -> Seq<u8>
    decreases ts.len() - i,
{
    if i < 0 || i >= ts.len() {
        Seq::<u8>::empty()
    } else {
        spec_head_word(ts, i) + heads_from(ts, i + 1)
    }
}

pub open spec fn tails_from(ts: Seq<TokenV>, i: int) -> Seq<u8>
    decreases ts.len() - i,
{
    if i < 0 || i >= ts.len() {
        Seq::<u8>::empty()
    } else {
        spec_tail(ts[i]) + tails_from(ts, i + 1)
    }
}

/// The whole data section: every head word in order, then every tail in
/// order.
pub open spec fn spec_enc_data(ts: Seq<TokenV>) -> Seq<u8> {
    heads_from(ts, 0) + tails_from(ts, 0)
}

} // verus!

verus! {

pub proof fn lemma_static_word_len(t: TokenV)
    requires
        wf_token(t),
    ensures
        spec_static_word(t).len() == 32,
{
}

pub proof fn lemma_pad32(n: int)
    requires
        n >= 0,
    ensures
        n <= pad32_len(n) < n + 32,
        pad32_len(n) % 32 == 0,
{
}

pub proof fn lemma_tail_len(t: TokenV)
    ensures
        spec_tail(t).len() == spec_tail_len(t),
        spec_tail_len(t) >= 0,
{
    if is_dynamic_token(t) {
        let c = spec_dyn_content(t);
        lemma_be_bytes_len(c.len() as int, 32);
        lemma_pad32(c.len() as int);
    }
}

pub proof fn lemma_tails_prefix_monotone(ts: Seq<TokenV>, i: int, j: int)
    requires
        0 <= i <= j <= ts.len(),
    ensures
        0 <= tails_prefix_len(ts, i) <= tails_prefix_len(ts, j),
    decreases j - i,
{
    if i == j {
        lemma_tails_prefix_nonneg(ts, i);
    } else {
        lemma_tails_prefix_monotone(ts, i, j - 1);
        lemma_tail_len(ts[j - 1]);
    }
}

pub proof fn lemma_tails_prefix_nonneg(ts: Seq<TokenV>, i: int)
    requires
        i >= 0,
    ensures
        tails_prefix_len(ts, i) >= 0,
    decreases i,
{
    if i > 0 {
        lemma_tails_prefix_nonneg(ts, i - 1);
        lemma_tail_len(ts[i - 1]);
    }
}

pub proof fn lemma_heads_from_len(ts: Seq<TokenV>, i: int)
    requires
        0 <= i <= ts.len(),
        forall|j: int| 0 <= j < ts.len() ==> wf_token(#[trigger] ts[j]),
    ensures
        heads_from(ts, i).len() == 32 * (ts.len() - i),
    decreases ts.len() - i,
{
    if i < ts.len() {
        lemma_heads_from_len(ts, i + 1);
        if is_dynamic_token(ts[i]) {
            lemma_be_bytes_len(spec_offset(ts, i), 32);
        } else {
            lemma_static_word_len(ts[i]);
        }
    }
}

pub proof fn lemma_head_word_len(ts: Seq<TokenV>, i: int)
    requires
        0 <= i < ts.len(),
        wf_token(ts[i]),
    ensures
        spec_head_word(ts, i).len() == 32,
{
    if is_dynamic_token(ts[i]) {
        lemma_be_bytes_len(spec_offset(ts, i), 32);
    } else {
        lemma_static_word_len(ts[i]);
    }
}

pub proof fn lemma_tails_from_len(ts: Seq<TokenV>, i: int)
    requires
        0 <= i <= ts.len(),
    ensures
        tails_from(ts, i).len() == tails_prefix_len(ts, ts.len() as int) - tails_prefix_len(
            ts,
            i,
        ),
    decreases ts.len() - i,
{
    if i < ts.len() {
        lemma_tails_from_len(ts, i + 1);
        lemma_tail_len(ts[i]);
    }
}

proof fn lemma_heads_slice(ts: Seq<TokenV>, p: int, i: int)
    requires
        0 <= p <= i < ts.len(),
        forall|j: int| 0 <= j < ts.len() ==> wf_token(#[trigger] ts[j]),
    ensures
        heads_from(ts, p).subrange(32 * (i - p), 32 * (i - p) + 32) =~= spec_head_word(ts, i),
    decreases i - p,
{
    lemma_head_word_len(ts, p);
    lemma_heads_from_len(ts, p + 1);
    if p == i {
        assert(heads_from(ts, p).subrange(0, 32) =~= spec_head_word(ts, p));
    } else {
        lemma_heads_slice(ts, p + 1, i);
        lemma_head_word_len(ts, i);
        assert(heads_from(ts, p).subrange(32 * (i - p), 32 * (i - p) + 32) =~= heads_from(
            ts,
            p + 1,
        ).subrange(32 * (i - p - 1), 32 * (i - p - 1) + 32));
    }
}

/// Head word `i` stands at bytes `32 i .. 32 i + 32` of the data section.
pub proof fn lemma_data_head(ts: Seq<TokenV>, i: int)
    requires
        0 <= i < ts.len(),
        forall|j: int| 0 <= j < ts.len() ==> wf_token(#[trigger] ts[j]),
    ensures
        spec_enc_data(ts).subrange(32 * i, 32 * i + 32) =~= spec_head_word(ts, i),
{
    lemma_heads_from_len(ts, 0);
    lemma_heads_slice(ts, 0, i);
    lemma_head_word_len(ts, i);
    assert(spec_enc_data(ts).subrange(32 * i, 32 * i + 32) =~= heads_from(ts, 0).subrange(
        32 * i,
        32 * i + 32,
    ));
}

proof fn lemma_tails_slice(ts: Seq<TokenV>, p: int, i: int)
    requires
        0 <= p <= i < ts.len(),
        is_dynamic_token(ts[i]),
    ensures
        tails_from(ts, p).subrange(
            tails_prefix_len(ts, i) - tails_prefix_len(ts, p),
            tails_prefix_len(ts, i) - tails_prefix_len(ts, p) + spec_tail_len(ts[i]),
        ) =~= spec_tail(ts[i]),
    decreases i - p,
{
    lemma_tail_len(ts[p]);
    lemma_tail_len(ts[i]);
    lemma_tails_from_len(ts, p + 1);
    lemma_tails_prefix_monotone(ts, p, i);
    lemma_tails_prefix_monotone(ts, i + 1, ts.len() as int);
    let a = spec_tail(ts[p]);
    let rest = tails_from(ts, p + 1);
    let tl = spec_tail_len(ts[i]);
    assert(tails_prefix_len(ts, p + 1) == tails_prefix_len(ts, p) + spec_tail_len(ts[p]));
    assert(tails_prefix_len(ts, i + 1) == tails_prefix_len(ts, i) + tl);
    if p == i {
        let whole = tails_from(ts, p);
        assert(whole == a + rest);
        assert forall|k: int| 0 <= k < tl implies whole.subrange(0, tl)[k] == a[k] by {
            assert(whole[k] == (a + rest)[k]);
        }
        assert(whole.subrange(0, tl) =~= a);
    } else {
        lemma_tails_slice(ts, p + 1, i);
        lemma_tails_prefix_monotone(ts, p + 1, i);
        let lo = tails_prefix_len(ts, i) - tails_prefix_len(ts, p);
        let lo2 = tails_prefix_len(ts, i) - tails_prefix_len(ts, p + 1);
        let whole = tails_from(ts, p);
        assert(whole == a + rest);
        assert(lo == lo2 + a.len());
        assert(lo + tl <= whole.len());
        assert forall|k: int| 0 <= k < tl implies whole.subrange(lo, lo + tl)[k] == spec_tail(
            ts[i],
        )[k] by {
            assert(whole[lo + k] == (a + rest)[lo + k]);
            assert((a + rest)[lo + k] == rest[lo2 + k]);
            assert(rest[lo2 + k] == rest.subrange(lo2, lo2 + tl)[k]);
        }
        assert(whole.subrange(lo, lo + tl) =~= spec_tail(ts[i]));
    }
}

/// A dynamic token's tail stands exactly where its head word points, and
/// fits inside the data section.
pub proof fn lemma_data_tail(ts: Seq<TokenV>, i: int)
    requires
        0 <= i < ts.len(),
        is_dynamic_token(ts[i]),
        forall|j: int| 0 <= j < ts.len() ==> wf_token(#[trigger] ts[j]),
    ensures
        spec_offset(ts, i) + spec_tail_len(ts[i]) <= spec_enc_data(ts).len(),
        spec_enc_data(ts).subrange(
            spec_offset(ts, i),
            spec_offset(ts, i) + spec_tail_len(ts[i]),
        ) =~= spec_tail(ts[i]),
{
    lemma_heads_from_len(ts, 0);
    lemma_tails_from_len(ts, 0);
    lemma_tails_slice(ts, 0, i);
    lemma_tail_len(ts[i]);
    lemma_tails_prefix_monotone(ts, 0, i);
    lemma_tails_prefix_monotone(ts, i + 1, ts.len() as int);
    assert(tails_prefix_len(ts, i + 1) == tails_prefix_len(ts, i) + spec_tail_len(ts[i]));
    let off = spec_offset(ts, i);
    let tl = spec_tail_len(ts[i]);
    assert(spec_enc_data(ts).subrange(off, off + tl) =~= tails_from(ts, 0).subrange(
        tails_prefix_len(ts, i),
        tails_prefix_len(ts, i) + tl,
    ));
}

/// Reading a dynamic token back out of the data section: the length word,
/// then the payload.
pub proof fn lemma_data_dyn_parts(ts: Seq<TokenV>, i: int)
    requires
        0 <= i < ts.len(),
        is_dynamic_token(ts[i]),
        forall|j: int| 0 <= j < ts.len() ==> wf_token(#[trigger] ts[j]),
    ensures
        spec_offset(ts, i) + 32 + spec_dyn_content(ts[i]).len() <= spec_enc_data(ts).len(),
        spec_enc_data(ts).subrange(spec_offset(ts, i), spec_offset(ts, i) + 32) =~= be_word(
            spec_dyn_content(ts[i]).len() as int,
        ),
        spec_enc_data(ts).subrange(
            spec_offset(ts, i) + 32,
            spec_offset(ts, i) + 32 + spec_dyn_content(ts[i]).len(),
        ) =~= spec_dyn_content(ts[i]),
{
    lemma_data_tail(ts, i);
    let off = spec_offset(ts, i);
    let c = spec_dyn_content(ts[i]);
    let tl = spec_tail_len(ts[i]);
    let cl = c.len() as int;
    lemma_be_bytes_len(cl, 32);
    lemma_pad32(cl);
    lemma_tail_len(ts[i]);
    let data = spec_enc_data(ts);
    let tail = spec_tail(ts[i]);
    let lw = be_word(cl);
    assert(tail == lw + c + zeros(pad32_len(cl) - cl));
    assert(tail == data.subrange(off, off + tl));
    assert(0 <= off) by {
        lemma_tails_prefix_monotone(ts, 0, i);
    }
    assert forall|k: int| 0 <= k < 32 implies data.subrange(off, off + 32)[k] == lw[k] by {
        assert(data[off + k] == data.subrange(off, off + tl)[k]);
        assert(tail[k] == (lw + c + zeros(pad32_len(cl) - cl))[k]);
    }
    assert(data.subrange(off, off + 32) =~= lw);
    assert forall|k: int| 0 <= k < cl implies data.subrange(off + 32, off + 32 + cl)[k] == c[k] by {
        assert(data[off + 32 + k] == data.subrange(off, off + tl)[32 + k]);
        assert(tail[32 + k] == (lw + c + zeros(pad32_len(cl) - cl))[32 + k]);
        assert((lw + c + zeros(pad32_len(cl) - cl))[32 + k] == (lw + c)[32 + k]);
        assert((lw + c)[32 + k] == c[k]);
    }
    assert(data.subrange(off + 32, off + 32 + cl) =~= c);
}

} // verus!

verus! {

/// A declared fixed-bytes width must fit one word; every other kind is
/// well formed as it stands.
pub open spec fn kind_width_ok(k: ParamKind) -> bool {
    match k {
        ParamKind::FixedBytes(n) => 1 <= n <= 32,
        _ => true,
    }
}

/// The token a static word decodes to: addresses from the low 20 bytes,
/// booleans from the last byte, fixed bytes from the front.
pub open spec fn spec_dec_static_word(k: ParamKind, w: Seq<u8>) -> TokenV {
    match k {
        ParamKind::Address => TokenV::Address(w.subrange(12, 32)),
        ParamKind::Uint => TokenV::Uint(w),
        ParamKind::Int => TokenV::Int(w),
        ParamKind::Bool => TokenV::Bool(w[31] != 0),
        ParamKind::FixedBytes(n) => TokenV::FixedBytes(w.subrange(0, n as int)),
        _ => TokenV::Bool(false),
    }
}

/// What body slot `bi` of the data section decodes to under kind `k`:
/// a static kind reads its word in place; a dynamic kind follows its offset
/// word to a length-prefixed payload; anything out of bounds, and any
/// unsupported kind, fails.
pub open spec fn spec_dec_body_param(k: ParamKind, data: Seq<u8>, bi: int) -> Option<TokenV> {
    if bi < 0 || 32 * bi + 32 > data.len() {
        None
    } else {
        let w = data.subrange(32 * bi, 32 * bi + 32);
        if is_static_kind(k) {
            if kind_width_ok(k) {
                Some(spec_dec_static_word(k, w))
            } else {
                None
            }
        } else if k == ParamKind::DynamicComposite {
            Some(TokenV::Opaque)
        } else if is_dynamic_kind(k) {
            let off = be_value(w);
            if off + 32 > data.len() {
                None
            } else {
                let l = be_value(data.subrange(off, off + 32));
                if off + 32 + l > data.len() {
                    None
                } else {
                    let c = data.subrange(off + 32, off + 32 + l);
                    if k == ParamKind::Bytes {
                        Some(TokenV::Bytes(c))
                    } else if vstd::utf8::valid_utf8(c) {
                        Some(TokenV::Str(vstd::utf8::decode_utf8(c)))
                    } else {
                        None
                    }
                }
            }
        } else {
            None
        }
    }
}

/// What one topic word decodes to under kind `k`: a static kind reads the
/// word; a dynamic indexed parameter only ever stores its hash, kept as the
/// raw word.
pub open spec fn spec_dec_topic(k: ParamKind, w: Seq<u8>) -> Option<TokenV> {
    if w.len() != 32 {
        None
    } else if is_static_kind(k) {
        if kind_width_ok(k) {
            Some(spec_dec_static_word(k, w))
        } else {
            None
        }
    } else if is_dynamic_kind(k) || k == ParamKind::DynamicComposite {
        Some(TokenV::FixedBytes(w))
    } else {
        None
    }
}

/// Decodes the parameters of one event, walking the declared list with a
/// cursor into the topics for indexed parameters and a body slot cursor for
/// the rest.
pub open spec fn spec_dec_params(
    params: Seq<ParamV>,
    topics: Seq<Seq<u8>>,
    ti: int,
    data: Seq<u8>,
    bi: int,
) -> Option<Seq<TokenV>>
    decreases params.len(),
{
    if params.len() == 0 {
        Some(Seq::<TokenV>::empty())
    } else {
        let p = params[0];
        if p.indexed {
            if 0 <= ti < topics.len() {
                match spec_dec_topic(p.kind, topics[ti]) {
                    Some(t) => match spec_dec_params(
                        params.drop_first(),
                        topics,
                        ti + 1,
                        data,
                        bi,
                    ) {
                        Some(rest) => Some(seq![t] + rest),
                        None => None,
                    },
                    None => None,
                }
            } else {
                None
            }
        } else {
            match spec_dec_body_param(p.kind, data, bi) {
                Some(t) => match spec_dec_params(params.drop_first(), topics, ti, data, bi + 1) {
                    Some(rest) => Some(seq![t] + rest),
                    None => None,
                },
                None => None,
            }
        }
    }
}

/// How many of the parameters are indexed.
pub open spec fn count_indexed(params: Seq<ParamV>) -> int
    decreases params.len(),
{
    if params.len() == 0 {
        0
    } else {
        (if params[0].indexed {
            1int
        } else {
            0int
        }) + count_indexed(params.drop_first())
    }
}

/// Whether `log` matches `schema`, and the tokens it carries if so: the
/// first topic must be the event's signature hash, the topic count must
/// fit the indexed parameters exactly, and every parameter must parse.
pub open spec fn spec_decode_event(schema: SchemaV, log: RawLogV) -> Option<Seq<TokenV>> {
    if log.topics.len() >= 1 && log.topics[0] == schema.topic0 && log.topics.len() == 1
        + count_indexed(schema.params) {
        spec_dec_params(schema.params, log.topics, 1, log.data, 0)
    } else {
        None
    }
}

/// The first declared event that matches the log, with its tokens; the
/// declared order breaks every tie.
pub open spec fn spec_decode_log(schemas: Seq<SchemaV>, log: RawLogV) -> Option<
    (int, Seq<TokenV>),
>
    decreases schemas.len(),
{
    if schemas.len() == 0 {
        None
    } else {
        match spec_decode_event(schemas[0], log) {
            Some(ts) => Some((0int, ts)),
            None => match spec_decode_log(schemas.drop_first(), log) {
                Some(r) => Some((r.0 + 1, r.1)),
                None => None,
            },
        }
    }
}

/// The value of a byte sequence splits at any point into a high and a low
/// part.
pub proof fn lemma_be_value_split(a: Seq<u8>, b: Seq<u8>)
    ensures
        be_value(a + b) == be_value(a) * pow256(b.len() as int) + be_value(b),
    decreases b.len(),
{
    if b.len() == 0 {
        assert(a + b =~= a);
    } else {
        assert((a + b).drop_last() =~= a + b.drop_last());
        assert((a + b).last() == b.last());
        lemma_be_value_split(a, b.drop_last());
        lemma_pow256_positive(b.len() - 1);
        assert((be_value(a) * pow256(b.len() - 1) + be_value(b.drop_last())) * 256 == be_value(a)
            * (256 * pow256(b.len() - 1)) + be_value(b.drop_last()) * 256) by (nonlinear_arith);
    }
}

/// A sequence holding any nonzero byte spells a nonzero value.
pub proof fn lemma_be_value_nonzero(bytes: Seq<u8>, j: int)
    requires
        0 <= j < bytes.len(),
        bytes[j] != 0,
    ensures
        be_value(bytes) >= 1,
    decreases bytes.len(),
{
    lemma_be_value_bound(bytes.drop_last());
    if j == bytes.len() - 1 {
        assert(be_value(bytes.drop_last()) * 256 >= 0) by (nonlinear_arith)
            requires be_value(bytes.drop_last()) >= 0;
    } else {
        lemma_be_value_nonzero(bytes.drop_last(), j);
        assert(be_value(bytes.drop_last()) * 256 >= 256) by (nonlinear_arith)
            requires be_value(bytes.drop_last()) >= 1;
    }
}

/// Compares two byte strings.
pub fn bytes_eq(a: &Vec<u8>, b: &Vec<u8>) -> (r: bool)
    ensures
        r == (a@ == b@),
{
    if a.len() != b.len() {
        proof {
            assert(a@.len() != b@.len());
        }
        return false;
    }
    let mut i: usize = 0;
    while i < a.len()
        invariant
            i <= a@.len(),
            a@.len() == b@.len(),
            forall|j: int| 0 <= j < i ==> a@[j] == b@[j],
        decreases a@.len() - i,
    {
        if a[i] != b[i] {
            return false;
        }
        i = i + 1;
    }
    proof {
        assert(a@ =~= b@);
    }
    true
}

/// Copies `data[start..end]` out into its own vector.
pub fn copy_range(data: &Vec<u8>, start: usize, end: usize) -> (r: Vec<u8>)
    requires
        start <= end <= data@.len(),
    ensures
        r@ == data@.subrange(start as int, end as int),
{
    let mut out: Vec<u8> = Vec::new();
    let mut i: usize = start;
    while i < end
        invariant
            start <= i <= end <= data@.len(),
            out@ =~= data@.subrange(start as int, i as int),
        decreases end - i,
    {
        out.push(data[i]);
        proof {
            assert(out@ =~= data@.subrange(start as int, i + 1 as int));
        }
        i = i + 1;
    }
    out
}

} // verus!

verus! {

proof fn lemma_pow256_8()
    ensures
        pow256(8) == 0x1_0000_0000_0000_0000,
{
    assert(pow256(0) == 1);
    assert(pow256(1) == 256);
    assert(pow256(2) == 0x1_0000);
    assert(pow256(3) == 0x100_0000);
    assert(pow256(4) == 0x1_0000_0000);
    assert(pow256(5) == 0x100_0000_0000);
    assert(pow256(6) == 0x1_0000_0000_0000);
    assert(pow256(7) == 0x100_0000_0000_0000);
    assert(pow256(8) == 0x1_0000_0000_0000_0000);
}

proof fn lemma_pow256_monotone(a: int, b: int)
    requires
        a <= b,
    ensures
        pow256(a) <= pow256(b),
    decreases b - a,
{
    if a < b {
        lemma_pow256_monotone(a, b - 1);
        lemma_pow256_positive(b - 1);
    }
}

/// Reads the eight bytes at `start` as a big-endian value.
fn read_be_u64(data: &Vec<u8>, start: usize) -> (r: u64)
    requires
        start + 8 <= data@.len(),
    ensures
        r as int == be_value(data@.subrange(start as int, start + 8)),
{
    let dlen = data.len();
    let mut acc: u64 = 0;
    let mut j: usize = 0;
    while j < 8
        invariant
            j <= 8,
            start + 8 <= dlen == data@.len(),
            acc as int == be_value(data@.subrange(start as int, start + j)),
            (acc as int) < pow256(j as int),
        decreases 8 - j,
    {
        proof {
            lemma_pow256_8();
            lemma_pow256_monotone(j + 1, 8);
            assert(data@.subrange(start as int, start + j + 1).drop_last() =~= data@.subrange(
                start as int,
                start + j,
            ));
            assert(data@.subrange(start as int, start + j + 1).last() == data@[start + j]);
        }
        acc = acc * 256 + data[start + j] as u64;
        j = j + 1;
    }
    acc
}

} // verus!

verus! {

/// Reads the 32-byte word at `base` as an unsigned value, when it fits a
/// machine word: `None` means the word spells a value of 2^64 or more.
fn read_word_u64(data: &Vec<u8>, base: usize) -> (r: Option<u64>)
    requires
        base + 32 <= data@.len(),
    ensures
        match r {
            Some(v) => v as int == be_value(data@.subrange(base as int, base + 32)),
            None => be_value(data@.subrange(base as int, base + 32)) >= 0x1_0000_0000_0000_0000,
        },
{
    let dlen = data.len();
    let ghost w = data@.subrange(base as int, base + 32);
    let ghost hi = data@.subrange(base as int, base + 24);
    let ghost lo = data@.subrange(base + 24, base + 32);
    proof {
        assert(w =~= hi + lo);
        lemma_pow256_8();
        lemma_be_value_bound(lo);
    }
    let mut j: usize = 0;
    while j < 24
        invariant
            j <= 24,
            base + 32 <= dlen == data@.len(),
            hi == data@.subrange(base as int, base + 24),
            lo == data@.subrange(base + 24, base + 32),
            w == data@.subrange(base as int, base + 32),
            forall|i: int| 0 <= i < j ==> #[trigger] hi[i] == 0,
        decreases 24 - j,
    {
        if data[base + j] != 0 {
            proof {
                lemma_pow256_8();
                lemma_be_value_bound(lo);
                assert(w =~= hi + lo);
                assert(hi[j as int] == data@[base + j]);
                lemma_be_value_nonzero(hi, j as int);
                lemma_be_value_split(hi, lo);
                assert(be_value(hi) * pow256(8) >= pow256(8)) by (nonlinear_arith)
                    requires
                        be_value(hi) >= 1,
                        pow256(8) >= 1,
                ;
            }
            return None;
        }
        j = j + 1;
    }
    let v = read_be_u64(data, base + 24);
    proof {
        assert(w =~= hi + lo);
        lemma_be_value_zeros(hi);
        lemma_be_value_split(hi, lo);
    }
    Some(v)
}

/// Relies on String::from_utf8 (std): it accepts exactly the valid UTF-8
/// byte strings, and the accepted string's characters decode the bytes.
#[verifier::external_body]
fn string_from_utf8(bytes: Vec<u8>) -> (r: Option<String>)
    ensures
        r is Some <==> vstd::utf8::valid_utf8(bytes@),
        r matches Some(s) ==> s@ == vstd::utf8::decode_utf8(bytes@),
{
    String::from_utf8(bytes).ok()
}

/// Decodes the static word at `base` under kind `k`.
fn dec_static_word(k: ParamKind, data: &Vec<u8>, base: usize) -> (r: TokenValue)
    requires
        base + 32 <= data@.len(),
        is_static_kind(k),
        kind_width_ok(k),
    ensures
        r@ == spec_dec_static_word(k, data@.subrange(base as int, base + 32)),
{
    let dlen = data.len();
    proof {
        assert(base + 32 <= dlen);
    }
    let ghost w = data@.subrange(base as int, base + 32);
    match k {
        ParamKind::Address => {
            let bytes = copy_range(data, base + 12, base + 32);
            proof {
                assert(bytes@ =~= w.subrange(12, 32));
            }
            TokenValue::Address(bytes)
        },
        ParamKind::Uint => {
            let bytes = copy_range(data, base, base + 32);
            TokenValue::Uint(bytes)
        },
        ParamKind::Int => {
            let bytes = copy_range(data, base, base + 32);
            TokenValue::Int(bytes)
        },
        ParamKind::Bool => {
            proof {
                assert(w[31] == data@[base + 31]);
            }
            TokenValue::Bool(data[base + 31] != 0)
        },
        ParamKind::FixedBytes(n) => {
            let bytes = copy_range(data, base, base + n);
            proof {
                assert(bytes@ =~= w.subrange(0, n as int));
            }
            TokenValue::FixedBytes(bytes)
        },
        _ => TokenValue::Bool(false),
    }
}

/// Decodes body slot `bi` of the data section under kind `k`.
fn dec_body_param(k: ParamKind, data: &Vec<u8>, bi: usize) -> (r: Option<TokenValue>)
    ensures
        match r {
            Some(t) => spec_dec_body_param(k, data@, bi as int) == Some(t@),
            None => spec_dec_body_param(k, data@, bi as int) is None,
        },
{
    let dlen = data.len();
    if bi >= dlen / 32 {
        proof {
            assert(32 * (bi as int) + 32 > data@.len());
        }
        return None;
    }
    let base = 32 * bi;
    proof {
        assert(32 * (bi as int) + 32 <= data@.len());
    }
    let ghost w = data@.subrange(base as int, base + 32);
    match k {
        ParamKind::DynamicComposite => Some(TokenValue::Opaque),
        ParamKind::Bytes | ParamKind::Str => {
            let off64 = match read_word_u64(data, base) {
                Some(v) => v,
                None => {
                    proof {
                        lemma_pow256_8();
                    }
                    return None;
                },
            };
            let len64 = dlen as u64;
            if off64 > len64 || len64 - off64 < 32 {
                return None;
            }
            let off = off64 as usize;
            let clen64 = match read_word_u64(data, off) {
                Some(v) => v,
                None => {
                    proof {
                        lemma_pow256_8();
                    }
                    return None;
                },
            };
            if clen64 > len64 - (off64 + 32) {
                return None;
            }
            let clen = clen64 as usize;
            let content = copy_range(data, off + 32, off + 32 + clen);
            if matches!(k, ParamKind::Bytes) {
                Some(TokenValue::Bytes(content))
            } else {
                match string_from_utf8(content) {
                    Some(s) => Some(TokenValue::Str(s)),
                    None => None,
                }
            }
        },
        ParamKind::Unsupported => None,
        _ => {
            match k {
                ParamKind::FixedBytes(n) => {
                    if n < 1 || n > 32 {
                        return None;
                    }
                },
                _ => {},
            }
            Some(dec_static_word(k, data, base))
        },
    }
}

/// Decodes one topic word under kind `k`.
fn dec_topic_param(k: ParamKind, topic: &Vec<u8>) -> (r: Option<TokenValue>)
    ensures
        match r {
            Some(t) => spec_dec_topic(k, topic@) == Some(t@),
            None => spec_dec_topic(k, topic@) is None,
        },
{
    if topic.len() != 32 {
        return None;
    }
    match k {
        ParamKind::Bytes | ParamKind::Str | ParamKind::DynamicComposite => {
            let bytes = copy_range(topic, 0, 32);
            proof {
                assert(bytes@ =~= topic@);
            }
            Some(TokenValue::FixedBytes(bytes))
        },
        ParamKind::Unsupported => None,
        _ => {
            match k {
                ParamKind::FixedBytes(n) => {
                    if n < 1 || n > 32 {
                        return None;
                    }
                },
                _ => {},
            }
            proof {
                assert(topic@.subrange(0, 32) =~= topic@);
            }
            Some(dec_static_word(k, topic, 0))
        },
    }
}

} // verus!

verus! {

/// How many of the parameters from `i` on are indexed.
pub open spec fn count_indexed_from(params: Seq<ParamV>, i: int) -> int
    decreases params.len() - i,
{
    if i < 0 || i >= params.len() {
        0
    } else {
        (if params[i].indexed {
            1int
        } else {
            0int
        }) + count_indexed_from(params, i + 1)
    }
}

proof fn lemma_count_from_skip(params: Seq<ParamV>, i: int)
    requires
        0 <= i <= params.len(),
    ensures
        count_indexed_from(params, i) == count_indexed(params.skip(i)),
    decreases params.len() - i,
{
    if i < params.len() {
        lemma_count_from_skip(params, i + 1);
        assert(params.skip(i).drop_first() =~= params.skip(i + 1));
        assert(params.skip(i)[0] == params[i]);
    } else {
        assert(params.skip(i) =~= Seq::<ParamV>::empty());
    }
}

/// Counts the indexed parameters.
fn count_indexed_params(params: &Vec<EventParam>) -> (r: usize)
    ensures
        r as int == count_indexed(params_deep_view(params@)),
{
    let ghost pv = params_deep_view(params@);
    let n = params.len();
    let mut acc: usize = 0;
    let mut i: usize = n;
    while i > 0
        invariant
            i <= n == params@.len(),
            pv == params_deep_view(params@),
            acc as int == count_indexed_from(pv, i as int),
            acc + i <= n,
        decreases i,
    {
        i = i - 1;
        proof {
            assert(pv[i as int] == params@[i as int]@);
        }
        if params[i].indexed {
            acc = acc + 1;
        }
    }
    proof {
        lemma_count_from_skip(pv, 0);
        assert(pv.skip(0) =~= pv);
    }
    acc
}

/// Decodes the parameters from `idx` on, with `ti` the next topic to use
/// and `bi` the next body slot.
fn dec_params_from(
    params: &Vec<EventParam>,
    idx: usize,
    topics: &Vec<Vec<u8>>,
    ti: usize,
    data: &Vec<u8>,
    bi: usize,
) -> (r: Option<Vec<TokenValue>>)
    requires
        idx <= params@.len(),
        bi <= idx,
    ensures
        ({
            let s = spec_dec_params(
                params_deep_view(params@).skip(idx as int),
                topics_deep_view(topics@),
                ti as int,
                data@,
                bi as int,
            );
            match r {
                Some(v) => s == Some(tokens_deep_view(v@)),
                None => s is None,
            }
        }),
    decreases params@.len() - idx,
{
    let ghost pv = params_deep_view(params@).skip(idx as int);
    if idx == params.len() {
        proof {
            assert(pv =~= Seq::<ParamV>::empty());
            assert(tokens_deep_view(Seq::<TokenValue>::empty()) =~= Seq::<TokenV>::empty());
        }
        return Some(Vec::new());
    }
    proof {
        assert(pv[0] == params_deep_view(params@)[idx as int]);
        assert(params_deep_view(params@)[idx as int] == params@[idx as int]@);
        assert(pv.drop_first() =~= params_deep_view(params@).skip(idx + 1));
    }
    let p_kind = params[idx].kind;
    let p_indexed = params[idx].indexed;
    if p_indexed {
        if ti >= topics.len() {
            return None;
        }
        proof {
            assert(topics_deep_view(topics@)[ti as int] == topics@[ti as int]@);
        }
        let t = match dec_topic_param(p_kind, &topics[ti]) {
            Some(t) => t,
            None => {
                return None;
            },
        };
        match dec_params_from(params, idx + 1, topics, ti + 1, data, bi) {
            Some(rest) => {
                let mut out = rest;
                let ghost old_rest = out@;
                out.insert(0, t);
                proof {
                    assert(tokens_deep_view(out@) =~= seq![t@] + tokens_deep_view(old_rest));
                }
                Some(out)
            },
            None => None,
        }
    } else {
        let t = match dec_body_param(p_kind, data, bi) {
            Some(t) => t,
            None => {
                return None;
            },
        };
        match dec_params_from(params, idx + 1, topics, ti, data, bi + 1) {
            Some(rest) => {
                let mut out = rest;
                let ghost old_rest = out@;
                out.insert(0, t);
                proof {
                    assert(tokens_deep_view(out@) =~= seq![t@] + tokens_deep_view(old_rest));
                }
                Some(out)
            },
            None => None,
        }
    }
}

/// Whether `log` matches `schema`, and its decoded tokens if so.
pub fn dec_event(schema: &EventSchema, log: &RawLog) -> (r: Option<Vec<TokenValue>>)
    ensures
        ({
            let s = spec_decode_event(schema@, log@);
            match r {
                Some(v) => s == Some(tokens_deep_view(v@)),
                None => s is None,
            }
        }),
{
    if log.topics.len() == 0 {
        return None;
    }
    proof {
        assert(log@.topics[0] == log.topics@[0]@);
    }
    if !bytes_eq(&log.topics[0], &schema.topic0) {
        return None;
    }
    let n_indexed = count_indexed_params(&schema.params);
    if log.topics.len() - 1 != n_indexed {
        return None;
    }
    proof {
        assert(params_deep_view(schema.params@).skip(0) =~= params_deep_view(schema.params@));
    }
    dec_params_from(&schema.params, 0, &log.topics, 1, &log.data, 0)
}

/// The first declared event that matches `log`, from `idx` on, with its
/// position and tokens.
pub fn decode_first_match(schemas: &Vec<EventSchema>, idx: usize, log: &RawLog) -> (r: Option<
    (usize, Vec<TokenValue>),
>)
    requires
        idx <= schemas@.len(),
    ensures
        ({
            let s = spec_decode_log(schemas_deep_view(schemas@).skip(idx as int), log@);
            match r {
                Some(kv) => idx <= kv.0 < schemas@.len() && s == Some(
                    (kv.0 - idx, tokens_deep_view(kv.1@)),
                ),
                None => s is None,
            }
        }),
    decreases schemas@.len() - idx,
{
    let ghost sv = schemas_deep_view(schemas@).skip(idx as int);
    if idx == schemas.len() {
        proof {
            assert(sv =~= Seq::<SchemaV>::empty());
        }
        return None;
    }
    proof {
        assert(sv[0] == schemas_deep_view(schemas@)[idx as int]);
        assert(schemas_deep_view(schemas@)[idx as int] == schemas@[idx as int]@);
        assert(sv.drop_first() =~= schemas_deep_view(schemas@).skip(idx + 1));
    }
    match dec_event(&schemas[idx], log) {
        Some(v) => Some((idx, v)),
        None => decode_first_match(schemas, idx + 1, log),
    }
}

} // verus!

verus! {

/// The tokens of the non-indexed parameters from `i` on, in declared order:
/// the tokens the data section carries.
pub open spec fn nonindexed_from(params: Seq<ParamV>, args: Seq<TokenV>, i: int) -> Seq<TokenV>
    decreases params.len() - i,
{
    if i < 0 || i >= params.len() {
        Seq::<TokenV>::empty()
    } else if params[i].indexed {
        nonindexed_from(params, args, i + 1)
    } else {
        seq![args[i]] + nonindexed_from(params, args, i + 1)
    }
}

/// The topic words of the indexed parameters from `i` on, in declared
/// order.
pub open spec fn indexed_words_from(params: Seq<ParamV>, args: Seq<TokenV>, i: int) -> Seq<
    Seq<u8>,
>
    decreases params.len() - i,
{
    if i < 0 || i >= params.len() {
        Seq::<Seq<u8>>::empty()
    } else if params[i].indexed {
        seq![spec_static_word(args[i])] + indexed_words_from(params, args, i + 1)
    } else {
        indexed_words_from(params, args, i + 1)
    }
}

/// The topics an encoded event carries: its signature hash, then one word
/// per indexed parameter.
pub open spec fn spec_encode_topics(schema: SchemaV, args: Seq<TokenV>) -> Seq<Seq<u8>> {
    seq![schema.topic0] + indexed_words_from(schema.params, args, 0)
}

/// The data section an encoded event carries.
pub open spec fn spec_encode_data(schema: SchemaV, args: Seq<TokenV>) -> Seq<u8> {
    spec_enc_data(nonindexed_from(schema.params, args, 0))
}

/// When an argument list can be encoded against a declared event: one token
/// per parameter, each of the declared kind, indexed parameters of static
/// kinds, a 32-byte signature hash, and a data section that fits the
/// machine.
pub open spec fn spec_encodable(schema: SchemaV, args: Seq<TokenV>) -> bool {
    &&& args.len() == schema.params.len()
    &&& schema.topic0.len() == 32
    &&& forall|i: int|
        0 <= i < args.len() ==> token_matches_kind(#[trigger] args[i], schema.params[i].kind)
    &&& forall|i: int|
        0 <= i < schema.params.len() && (#[trigger] schema.params[i]).indexed ==> is_static_kind(
            schema.params[i].kind,
        )
    &&& spec_encode_data(schema, args).len() <= usize::MAX
}

/// A token of a matching static kind survives the word round trip.
proof fn lemma_static_word_inverse(t: TokenV, k: ParamKind)
    requires
        token_matches_kind(t, k),
        is_static_kind(k),
    ensures
        kind_width_ok(k),
        spec_static_word(t).len() == 32,
        spec_dec_static_word(k, spec_static_word(t)) == t,
{
    match t {
        TokenV::Address(a) => {
            assert((zeros(12) + a).subrange(12, 32) =~= a);
        },
        TokenV::Uint(b) => {},
        TokenV::Int(b) => {},
        TokenV::Bool(b) => {
            let w = zeros(31) + seq![if b { 1u8 } else { 0u8 }];
            assert(w[31] == (if b { 1u8 } else { 0u8 }));
        },
        TokenV::FixedBytes(fb) => {
            let n = choose|n: usize| k == ParamKind::FixedBytes(n) && fb.len() == n && 1 <= n <= 32;
            assert((fb + zeros(32 - fb.len())).subrange(0, n as int) =~= fb);
        },
        _ => {},
    }
}

/// Every token the data section carries is well shaped.
proof fn lemma_nonindexed_wf(params: Seq<ParamV>, args: Seq<TokenV>, i: int)
    requires
        args.len() == params.len(),
        forall|j: int|
            0 <= j < args.len() ==> token_matches_kind(#[trigger] args[j], params[j].kind),
    ensures
        forall|l: int|
            0 <= l < nonindexed_from(params, args, i).len() ==> wf_token(
                #[trigger] nonindexed_from(params, args, i)[l],
            ),
    decreases params.len() - i,
{
    if 0 <= i < params.len() {
        lemma_nonindexed_wf(params, args, i + 1);
        if params[i].indexed {
            assert(nonindexed_from(params, args, i) == nonindexed_from(params, args, i + 1));
        } else {
            assert forall|l: int|
                0 <= l < nonindexed_from(params, args, i).len() implies wf_token(
                #[trigger] nonindexed_from(params, args, i)[l],
            ) by {
                if l == 0 {
                    assert(nonindexed_from(params, args, i)[0] == args[i]);
                } else {
                    assert(nonindexed_from(params, args, i)[l] == nonindexed_from(
                        params,
                        args,
                        i + 1,
                    )[l - 1]);
                }
            }
        }
    }
}

proof fn lemma_dec_params_of_encoding(
    params: Seq<ParamV>,
    args: Seq<TokenV>,
    topics: Seq<Seq<u8>>,
    ts: Seq<TokenV>,
    data: Seq<u8>,
    i: int,
    ti: int,
    bi: int,
)
    requires
        0 <= i <= params.len(),
        args.len() == params.len(),
        forall|j: int|
            0 <= j < args.len() ==> token_matches_kind(#[trigger] args[j], params[j].kind),
        forall|j: int|
            0 <= j < params.len() && (#[trigger] params[j]).indexed ==> is_static_kind(
                params[j].kind,
            ),
        ts == nonindexed_from(params, args, 0),
        data == spec_enc_data(ts),
        data.len() <= usize::MAX,
        0 <= ti <= topics.len(),
        0 <= bi <= ts.len(),
        topics.skip(ti) == indexed_words_from(params, args, i),
        ts.skip(bi) == nonindexed_from(params, args, i),
    ensures
        spec_dec_params(params.skip(i), topics, ti, data, bi) == Some(args.skip(i)),
    decreases params.len() - i,
{
    lemma_nonindexed_wf(params, args, 0);
    lemma_heads_from_len(ts, 0);
    lemma_tails_from_len(ts, 0);
    lemma_tails_prefix_monotone(ts, 0, ts.len() as int);
    if i == params.len() {
        assert(params.skip(i) =~= Seq::<ParamV>::empty());
        assert(args.skip(i) =~= Seq::<TokenV>::empty());
        assert(spec_dec_params(params.skip(i), topics, ti, data, bi) == Some(
            Seq::<TokenV>::empty(),
        ));
    } else {
        let p = params[i];
        assert(params.skip(i)[0] == p);
        assert(params.skip(i).drop_first() =~= params.skip(i + 1));
        if p.indexed {
            let words = indexed_words_from(params, args, i);
            assert(words == seq![spec_static_word(args[i])] + indexed_words_from(
                params,
                args,
                i + 1,
            ));
            assert(words.len() >= 1);
            assert(ti < topics.len());
            assert(topics[ti] == topics.skip(ti)[0]);
            assert(topics.skip(ti)[0] == words[0]);
            assert(words[0] == spec_static_word(args[i]));
            lemma_static_word_inverse(args[i], p.kind);
            assert(spec_dec_topic(p.kind, topics[ti]) == Some(args[i]));
            assert(topics.skip(ti).drop_first() =~= topics.skip(ti + 1));
            assert(words.drop_first() =~= indexed_words_from(params, args, i + 1));
            lemma_dec_params_of_encoding(params, args, topics, ts, data, i + 1, ti + 1, bi);
            assert(seq![args[i]] + args.skip(i + 1) =~= args.skip(i));
        } else {
            let rest_tokens = nonindexed_from(params, args, i);
            assert(rest_tokens == seq![args[i]] + nonindexed_from(params, args, i + 1));
            assert(rest_tokens.len() >= 1);
            assert(bi < ts.len());
            assert(ts[bi] == ts.skip(bi)[0]);
            assert(ts.skip(bi)[0] == args[i]);
            lemma_body_param_of_encoding(ts, data, bi, p.kind);
            assert(spec_dec_body_param(p.kind, data, bi) == Some(args[i]));
            assert(ts.skip(bi).drop_first() =~= ts.skip(bi + 1));
            assert(rest_tokens.drop_first() =~= nonindexed_from(params, args, i + 1));
            lemma_dec_params_of_encoding(params, args, topics, ts, data, i + 1, ti, bi + 1);
            assert(seq![args[i]] + args.skip(i + 1) =~= args.skip(i));
        }
    }
}

/// Body slot `bi` of an encoded data section decodes back to the token it
/// was encoded from.
proof fn lemma_body_param_of_encoding(ts: Seq<TokenV>, data: Seq<u8>, bi: int, k: ParamKind)
    requires
        0 <= bi < ts.len(),
        token_matches_kind(ts[bi], k),
        forall|j: int| 0 <= j < ts.len() ==> wf_token(#[trigger] ts[j]),
        data == spec_enc_data(ts),
        data.len() <= usize::MAX,
    ensures
        spec_dec_body_param(k, data, bi) == Some(ts[bi]),
{
    lemma_heads_from_len(ts, 0);
    lemma_tails_from_len(ts, 0);
    lemma_tails_prefix_monotone(ts, 0, ts.len() as int);
    lemma_data_head(ts, bi);
    assert(32 * bi + 32 <= 32 * ts.len()) by {
        assert(bi + 1 <= ts.len());
        assert(32 * (bi + 1) <= 32 * ts.len()) by (nonlinear_arith)
            requires
                bi + 1 <= ts.len(),
        ;
    }
    let w = data.subrange(32 * bi, 32 * bi + 32);
    assert(w == spec_head_word(ts, bi));
    let t = ts[bi];
    if is_static_kind(k) {
        assert(!is_dynamic_token(t));
        lemma_static_word_inverse(t, k);
        assert(w == spec_static_word(t));
    } else {
        assert(is_dynamic_kind(k));
        assert(is_dynamic_token(t));
        let off = spec_offset(ts, bi);
        let c = spec_dyn_content(t);
        lemma_data_dyn_parts(ts, bi);
        lemma_pow256_8();
        lemma_pow256_monotone(8, 32);
        assert(w == be_word(off));
        assert(0 <= off <= data.len()) by {
            lemma_tails_prefix_monotone(ts, 0, bi);
            lemma_tails_prefix_monotone(ts, bi, ts.len() as int);
            lemma_tail_len(ts[bi]);
        }
        lemma_be_bytes_value(off, 32);
        assert(be_value(w) == off);
        assert(off + 32 <= data.len()) by {
            lemma_tail_len(ts[bi]);
            lemma_data_tail(ts, bi);
            lemma_pad32(c.len() as int);
        }
        assert(data.subrange(off, off + 32) == be_word(c.len() as int));
        assert(0 <= c.len() <= data.len());
        lemma_be_bytes_value(c.len() as int, 32);
        assert(be_value(data.subrange(off, off + 32)) == c.len());
        assert(off + 32 + c.len() <= data.len());
        assert(data.subrange(off + 32, off + 32 + c.len()) == c);
        match t {
            TokenV::Bytes(b) => {
                assert(k == ParamKind::Bytes);
            },
            TokenV::Str(s) => {
                assert(k == ParamKind::Str);
                broadcast use vstd::utf8::encode_utf8_valid_utf8;
                broadcast use vstd::utf8::encode_utf8_decode_utf8;

                assert(vstd::utf8::valid_utf8(c));
                assert(vstd::utf8::decode_utf8(c) == s);
            },
            _ => {},
        }
    }
}

proof fn lemma_indexed_words_len(params: Seq<ParamV>, args: Seq<TokenV>, i: int)
    ensures
        indexed_words_from(params, args, i).len() == count_indexed_from(params, i),
    decreases params.len() - i,
{
    if 0 <= i < params.len() {
        lemma_indexed_words_len(params, args, i + 1);
    }
}

/// Decoding an encoded event against the schema it was encoded from
/// returns exactly the arguments.
pub proof fn lemma_decode_event_of_encoding(schema: SchemaV, args: Seq<TokenV>, log: RawLogV)
    requires
        spec_encodable(schema, args),
        log.topics == spec_encode_topics(schema, args),
        log.data == spec_encode_data(schema, args),
    ensures
        spec_decode_event(schema, log) == Some(args),
{
    let words = indexed_words_from(schema.params, args, 0);
    lemma_indexed_words_len(schema.params, args, 0);
    lemma_count_from_skip(schema.params, 0);
    assert(schema.params.skip(0) =~= schema.params);
    assert(log.topics.len() == 1 + count_indexed(schema.params));
    assert(log.topics[0] == schema.topic0);
    let ts = nonindexed_from(schema.params, args, 0);
    assert(log.topics.skip(1) =~= words);
    assert(ts.skip(0) =~= ts);
    lemma_dec_params_of_encoding(
        schema.params,
        args,
        log.topics,
        ts,
        log.data,
        0,
        1,
        0,
    );
    assert(args.skip(0) =~= args);
}

/// The decoder round trip. For a declared event whose signature hash no
/// earlier declared event shares, decoding a log encoded from it yields
/// that event, first by declared order, with exactly the encoded
/// arguments.
pub proof fn lemma_decode_log_of_encoding(
    schemas: Seq<SchemaV>,
    k: int,
    args: Seq<TokenV>,
    log: RawLogV,
)
    requires
        0 <= k < schemas.len(),
        spec_encodable(schemas[k], args),
        forall|j: int| 0 <= j < k ==> (#[trigger] schemas[j]).topic0 != schemas[k].topic0,
        log.topics == spec_encode_topics(schemas[k], args),
        log.data == spec_encode_data(schemas[k], args),
    ensures
        spec_decode_log(schemas, log) == Some((k, args)),
    decreases k,
{
    lemma_decode_event_of_encoding(schemas[k], args, log);
    if k == 0 {
    } else {
        assert(log.topics[0] == schemas[k].topic0);
        assert(spec_decode_event(schemas[0], log) is None);
        let rest = schemas.drop_first();
        assert(rest[k - 1] == schemas[k]);
        let last_topic = rest[k - 1].topic0;
        assert forall|j: int| 0 <= j < k - 1 implies (#[trigger] rest[j]).topic0 != last_topic by {
            assert(rest[j] == schemas[j + 1]);
        }
        lemma_decode_log_of_encoding(rest, k - 1, args, log);
    }
}

} // verus!

verus! {

/// The head words of the first `j` tokens.
pub open spec fn heads_to(ts: Seq<TokenV>, j: int) -> Seq<u8>
    decreases j,
{
    if j <= 0 {
        Seq::<u8>::empty()
    } else {
        heads_to(ts, j - 1) + spec_head_word(ts, j - 1)
    }
}

/// The tails of the first `j` tokens.
pub open spec fn tails_to(ts: Seq<TokenV>, j: int) -> Seq<u8>
    decreases j,
{
    if j <= 0 {
        Seq::<u8>::empty()
    } else {
        tails_to(ts, j - 1) + spec_tail(ts[j - 1])
    }
}

proof fn lemma_heads_split(ts: Seq<TokenV>, j: int)
    requires
        0 <= j <= ts.len(),
    ensures
        heads_to(ts, j) + heads_from(ts, j) =~= heads_from(ts, 0),
    decreases j,
{
    if j == 0 {
        assert(heads_to(ts, 0) + heads_from(ts, 0) =~= heads_from(ts, 0));
    } else {
        lemma_heads_split(ts, j - 1);
        assert(heads_from(ts, j - 1) == spec_head_word(ts, j - 1) + heads_from(ts, j));
        assert((heads_to(ts, j - 1) + spec_head_word(ts, j - 1)) + heads_from(ts, j) =~= heads_to(
            ts,
            j - 1,
        ) + (spec_head_word(ts, j - 1) + heads_from(ts, j)));
    }
}

proof fn lemma_tails_split(ts: Seq<TokenV>, j: int)
    requires
        0 <= j <= ts.len(),
    ensures
        tails_to(ts, j) + tails_from(ts, j) =~= tails_from(ts, 0),
    decreases j,
{
    if j == 0 {
        assert(tails_to(ts, 0) + tails_from(ts, 0) =~= tails_from(ts, 0));
    } else {
        lemma_tails_split(ts, j - 1);
        assert(tails_from(ts, j - 1) == spec_tail(ts[j - 1]) + tails_from(ts, j));
        assert((tails_to(ts, j - 1) + spec_tail(ts[j - 1])) + tails_from(ts, j) =~= tails_to(
            ts,
            j - 1,
        ) + (spec_tail(ts[j - 1]) + tails_from(ts, j)));
    }
}

proof fn lemma_count_indexed_bounds(params: Seq<ParamV>, i: int)
    requires
        0 <= i <= params.len(),
    ensures
        0 <= count_indexed_from(params, i) <= params.len() - i,
    decreases params.len() - i,
{
    if i < params.len() {
        lemma_count_indexed_bounds(params, i + 1);
    }
}

proof fn lemma_nonindexed_len(params: Seq<ParamV>, args: Seq<TokenV>, i: int)
    requires
        0 <= i <= params.len(),
    ensures
        nonindexed_from(params, args, i).len() == params.len() - i - count_indexed_from(
            params,
            i,
        ),
    decreases params.len() - i,
{
    if i < params.len() {
        lemma_nonindexed_len(params, args, i + 1);
    }
}

proof fn lemma_pad32_rem(n: int)
    requires
        n >= 0,
    ensures
        pad32_len(n) - n == (if n % 32 == 0 {
            0int
        } else {
            32 - n % 32
        }),
{
    let q = n / 32;
    let r = n % 32;
    assert(n == 32 * q + r);
    if r == 0 {
        assert((n + 31) / 32 == q);
    } else {
        assert((n + 31) / 32 == q + 1);
    }
}

/// Appends `n` zero bytes.
fn push_zeros(v: &mut Vec<u8>, n: usize)
    ensures
        final(v)@ == old(v)@ + zeros(n as int),
{
    let mut j: usize = 0;
    while j < n
        invariant
            j <= n,
            v@ =~= old(v)@ + zeros(j as int),
        decreases n - j,
    {
        v.push(0);
        proof {
            assert(v@ =~= old(v)@ + zeros(j + 1));
        }
        j = j + 1;
    }
    proof {
        assert(v@ =~= old(v)@ + zeros(n as int));
    }
}

/// Writes `n` in `w` big-endian bytes.
fn be_bytes_exec(n: u64, w: usize) -> (r: Vec<u8>)
    ensures
        r@ == be_bytes(n as int, w as int),
    decreases w,
{
    if w == 0 {
        Vec::new()
    } else {
        let mut v = be_bytes_exec(n / 256, w - 1);
        v.push((n % 256) as u8);
        proof {
            assert(v@ =~= be_bytes(n as int / 256, w - 1) + seq![(n as int % 256) as u8]);
        }
        v
    }
}

/// The word a static token encodes to.
fn enc_static_word(t: &TokenValue) -> (r: Vec<u8>)
    requires
        wf_token(t@),
        !is_dynamic_token(t@),
    ensures
        r@ == spec_static_word(t@),
{
    match t {
        TokenValue::Address(a) => {
            let mut v: Vec<u8> = Vec::new();
            push_zeros(&mut v, 12);
            let mut body = copy_range(a, 0, a.len());
            v.append(&mut body);
            proof {
                assert(a@.subrange(0, a@.len() as int) =~= a@);
                assert(v@ =~= zeros(12) + a@);
            }
            v
        },
        TokenValue::Uint(b) => {
            let v = copy_range(b, 0, b.len());
            proof {
                assert(v@ =~= b@);
            }
            v
        },
        TokenValue::Int(b) => {
            let v = copy_range(b, 0, b.len());
            proof {
                assert(v@ =~= b@);
            }
            v
        },
        TokenValue::Bool(b) => {
            let mut v: Vec<u8> = Vec::new();
            push_zeros(&mut v, 31);
            v.push(if *b {
                1
            } else {
                0
            });
            proof {
                assert(v@ =~= zeros(31) + seq![
                    if t@ matches TokenV::Bool(x) && x {
                        1u8
                    } else {
                        0u8
                    },
                ]);
            }
            v
        },
        TokenValue::FixedBytes(fb) => {
            let mut v = copy_range(fb, 0, fb.len());
            proof {
                assert(v@ =~= fb@);
            }
            push_zeros(&mut v, 32 - fb.len());
            v
        },
        TokenValue::Bytes(_) => Vec::new(),
        TokenValue::Str(_) => Vec::new(),
        TokenValue::Opaque => {
            let mut v: Vec<u8> = Vec::new();
            push_zeros(&mut v, 32);
            proof {
                assert(v@ =~= zeros(32));
            }
            v
        },
    }
}

/// The payload bytes of a dynamic token.
fn dyn_content(t: &TokenValue) -> (r: Vec<u8>)
    requires
        is_dynamic_token(t@),
    ensures
        r@ == spec_dyn_content(t@),
{
    match t {
        TokenValue::Bytes(b) => {
            let v = copy_range(b, 0, b.len());
            proof {
                assert(v@ =~= b@);
            }
            v
        },
        TokenValue::Str(s) => {
            let v = s.as_str().as_bytes_vec();
            v
        },
        _ => Vec::new(),
    }
}

} // verus!

verus! {

/// Encodes an event occurrence: the topics and data section a node would
/// deliver for `schema` applied to `args`. The caller supplies one token
/// per declared parameter, each of its declared kind, with indexed
/// parameters of static kinds.
pub fn encode_event(schema: &EventSchema, args: &Vec<TokenValue>) -> (r: RawLog)
    requires
        spec_encodable(schema@, tokens_deep_view(args@)),
    ensures
        r@.topics == spec_encode_topics(schema@, tokens_deep_view(args@)),
        r@.data == spec_encode_data(schema@, tokens_deep_view(args@)),
        r@.block_number is None,
        r@.transaction_hash is None,
{
    let ghost pv = schema@.params;
    let ghost av = tokens_deep_view(args@);
    let ghost ts = nonindexed_from(pv, av, 0);
    proof {
        lemma_count_indexed_bounds(pv, 0);
        lemma_nonindexed_len(pv, av, 0);
        lemma_nonindexed_wf(pv, av, 0);
        lemma_heads_from_len(ts, 0);
        lemma_tails_from_len(ts, 0);
        lemma_tails_prefix_monotone(ts, 0, ts.len() as int);
    }
    let n = schema.params.len();
    let n_indexed = count_indexed_params(&schema.params);
    proof {
        lemma_count_from_skip(pv, 0);
        assert(pv.skip(0) =~= pv);
        assert(n_indexed as int == count_indexed_from(pv, 0));
        assert(n_indexed <= n);
    }
    let m = n - n_indexed;
    proof {
        assert(m == ts.len());
        assert(32 * ts.len() + tails_prefix_len(ts, ts.len() as int) == spec_enc_data(ts).len());
        assert(32 * m <= spec_enc_data(ts).len());
    }
    let head_len = 32 * m;
    let mut topics: Vec<Vec<u8>> = Vec::new();
    topics.push(copy_range(&schema.topic0, 0, schema.topic0.len()));
    proof {
        assert(schema.topic0@.subrange(0, schema.topic0@.len() as int) =~= schema.topic0@);
        assert(topics_deep_view(topics@) =~= seq![schema@.topic0]);
    }
    let mut heads: Vec<u8> = Vec::new();
    let mut tails: Vec<u8> = Vec::new();
    let mut i: usize = 0;
    let ghost mut j: int = 0;
    while i < n
        invariant
            n == schema.params@.len(),
            args@.len() == n,
            pv == schema@.params,
            av == tokens_deep_view(args@),
            ts == nonindexed_from(pv, av, 0),
            spec_encodable(schema@, av),
            i <= n,
            0 <= j <= ts.len(),
            head_len == 32 * ts.len(),
            ts.skip(j) == nonindexed_from(pv, av, i as int),
            topics_deep_view(topics@) + indexed_words_from(pv, av, i as int)
                == spec_encode_topics(schema@, av),
            heads@ == heads_to(ts, j),
            tails@ == tails_to(ts, j),
            tails@.len() == tails_prefix_len(ts, j),
        decreases n - i,
    {
        proof {
            assert(pv[i as int] == schema.params@[i as int]@);
            assert(av[i as int] == args@[i as int]@);
            lemma_nonindexed_wf(pv, av, 0);
            lemma_heads_from_len(ts, 0);
            lemma_tails_from_len(ts, 0);
            lemma_tails_prefix_monotone(ts, 0, ts.len() as int);
        }
        let p_indexed = schema.params[i].indexed;
        if p_indexed {
            proof {
                assert(indexed_words_from(pv, av, i as int) == seq![spec_static_word(
                    av[i as int],
                )] + indexed_words_from(pv, av, i + 1));
                assert(token_matches_kind(av[i as int], pv[i as int].kind));
                assert(is_static_kind(pv[i as int].kind));
                assert(wf_token(av[i as int]) && !is_dynamic_token(av[i as int]));
            }
            let word = enc_static_word(&args[i]);
            let ghost old_topics = topics@;
            topics.push(word);
            proof {
                assert(topics_deep_view(topics@) =~= topics_deep_view(old_topics) + seq![
                    spec_static_word(av[i as int]),
                ]);
                assert(topics_deep_view(topics@) + indexed_words_from(pv, av, i + 1)
                    =~= topics_deep_view(old_topics) + indexed_words_from(pv, av, i as int));
            }
        } else {
            proof {
                assert(ts.skip(j) == seq![av[i as int]] + nonindexed_from(pv, av, i + 1));
                assert(ts.skip(j).len() >= 1);
                assert(j < ts.len());
                assert(ts[j] == ts.skip(j)[0]);
                assert(ts[j] == av[i as int]);
                assert(ts.skip(j).drop_first() =~= ts.skip(j + 1));
                assert(ts.skip(j + 1) =~= nonindexed_from(pv, av, i + 1));
                assert(token_matches_kind(av[i as int], pv[i as int].kind));
            }
            if !matches!(schema.params[i].kind, ParamKind::Bytes | ParamKind::Str) {
                proof {
                    assert(is_static_kind(pv[i as int].kind) || pv[i as int].kind
                        == ParamKind::Unsupported);
                    assert(wf_token(av[i as int]) && !is_dynamic_token(av[i as int]));
                    assert(spec_head_word(ts, j) == spec_static_word(ts[j]));
                }
                let mut word = enc_static_word(&args[i]);
                let ghost old_heads = heads@;
                heads.append(&mut word);
                proof {
                    assert(heads@ =~= heads_to(ts, j + 1));
                }
            } else {
                proof {
                    assert(is_dynamic_token(ts[j]));
                    lemma_data_tail(ts, j);
                    lemma_tail_len(ts[j]);
                    assert(spec_offset(ts, j) + spec_tail_len(ts[j]) <= spec_enc_data(ts).len());
                    assert(spec_enc_data(ts).len() <= usize::MAX);
                    assert(tails_prefix_len(ts, j) >= 0) by {
                        lemma_tails_prefix_monotone(ts, 0, j);
                    }
                }
                let off = head_len + tails.len();
                proof {
                    assert(off == spec_offset(ts, j));
                    lemma_pow256_8();
                    lemma_pow256_monotone(8, 32);
                    assert(0 <= off < pow256(32));
                    lemma_be_bytes_value(off as int, 32);
                }
                let mut word = be_bytes_exec(off as u64, 32);
                let ghost old_heads = heads@;
                proof {
                    assert(word@ == be_word(off as int));
                    assert(spec_head_word(ts, j) == be_word(spec_offset(ts, j)));
                }
                heads.append(&mut word);
                proof {
                    assert(heads@ =~= heads_to(ts, j + 1));
                }
                let content = dyn_content(&args[i]);
                let clen = content.len();
                proof {
                    assert(content@ == spec_dyn_content(ts[j]));
                    assert(0 <= clen < pow256(32));
                    lemma_be_bytes_value(clen as int, 32);
                    lemma_pad32_rem(clen as int);
                    lemma_pad32(clen as int);
                }
                let mut lenword = be_bytes_exec(clen as u64, 32);
                let ghost old_tails = tails@;
                tails.append(&mut lenword);
                let mut content_mut = content;
                tails.append(&mut content_mut);
                let rem = clen % 32;
                if rem != 0 {
                    push_zeros(&mut tails, 32 - rem);
                }
                proof {
                    let c = spec_dyn_content(ts[j]);
                    if clen % 32 == 0 {
                        assert(tails@ =~= old_tails + (be_word(c.len() as int) + c + zeros(
                            pad32_len(c.len() as int) - c.len(),
                        )));
                    } else {
                        assert(tails@ =~= old_tails + (be_word(c.len() as int) + c + zeros(
                            pad32_len(c.len() as int) - c.len(),
                        )));
                    }
                    assert(tails@ =~= tails_to(ts, j + 1));
                    lemma_tail_len(ts[j]);
                    assert(tails@.len() == tails_prefix_len(ts, j + 1));
                }
            }
            proof {
                j = j + 1;
            }
        }
        i = i + 1;
    }
    proof {
        assert(nonindexed_from(pv, av, n as int) =~= Seq::<TokenV>::empty());
        assert(ts.skip(j).len() == 0);
        assert(j == ts.len());
        lemma_heads_split(ts, ts.len() as int);
        lemma_tails_split(ts, ts.len() as int);
        assert(heads_from(ts, ts.len() as int) =~= Seq::<u8>::empty());
        assert(tails_from(ts, ts.len() as int) =~= Seq::<u8>::empty());
        assert(heads@ =~= heads_from(ts, 0));
        assert(tails@ =~= tails_from(ts, 0));
        assert(indexed_words_from(pv, av, n as int) =~= Seq::<Seq<u8>>::empty());
        assert(topics_deep_view(topics@) =~= spec_encode_topics(schema@, av));
    }
    let mut data = heads;
    let mut tails_mut = tails;
    data.append(&mut tails_mut);
    proof {
        assert(data@ =~= spec_enc_data(ts));
    }
    RawLog { topics, data, block_number: None, transaction_hash: None }
}

} // verus!
