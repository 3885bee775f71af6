use vstd::prelude::*;

use crate::abi::{
    be_value, is_static_kind, kind_width_ok, schemas_deep_view,
    spec_dec_body_param, spec_dec_params, spec_dec_static_word, spec_dec_topic, spec_decode_event,
    spec_decode_log, tokens_deep_view, decode_first_match, EventSchema, ParamKind, ParamV, RawLog,
    RawLogV, SchemaV, TokenV, TokenValue,
};
use crate::error::Error;
use crate::hexstr::{hex_encode, hex_of, prefixed_hex, prefixed_hex_of};

verus! {

/// Where the contract ABI stands on disk; the file itself is read outside
/// the library.
#[derive(Clone, Debug)]
pub struct DecoderConfig {
    pub abi_path: String,
}

/// The ethabi contract description: the parsed ABI the schemas are drawn
/// from.
#[verifier::external_type_specification]
#[verifier::external_body]
pub struct ExContract(ethabi::Contract);

/// The ethabi spelling of one declared parameter type.
#[verifier::external_type_specification]
#[verifier::external_body]
pub struct ExParamType(ethabi::ParamType);

/// One declared event parameter as ethabi spells it, before its type is
/// mapped onto the codec's kinds.
pub struct RawParamDecl {
    pub name: String,
    pub kind: ethabi::ParamType,
    pub indexed: bool,
}

/// One declared event as ethabi spells it: name, signature hash, and the
/// raw parameter declarations.
pub struct RawEventDecl {
    pub name: String,
    pub topic0: Vec<u8>,
    pub inputs: Vec<RawParamDecl>,
}

/// The mathematical value of one raw parameter declaration; the declared
/// type rides along as the opaque ethabi value.
pub struct RawParamDeclV {
    pub name: Seq<char>,
    pub kind: ethabi::ParamType,
    pub indexed: bool,
}

impl View for RawParamDecl {
    type V = RawParamDeclV;

    open spec fn view(&self) -> RawParamDeclV {
        RawParamDeclV { name: self.name@, kind: self.kind, indexed: self.indexed }
    }
}

/// The mathematical value of one raw event declaration.
pub struct RawEventDeclV {
    pub name: Seq<char>,
    pub topic0: Seq<u8>,
    pub inputs: Seq<RawParamDeclV>,
}

/// The raw parameter declarations, each as its mathematical value.
pub open spec fn raw_params_deep_view(inputs: Seq<RawParamDecl>) -> Seq<RawParamDeclV> {
    Seq::new(inputs.len(), |i: int| inputs[i]@)
}

impl View for RawEventDecl {
    type V = RawEventDeclV;

    open spec fn view(&self) -> RawEventDeclV {
        RawEventDeclV {
            name: self.name@,
            topic0: self.topic0@,
            inputs: raw_params_deep_view(self.inputs@),
        }
    }
}

/// The raw event declarations, each as its mathematical value.
pub open spec fn raw_decls_deep_view(decls: Seq<RawEventDecl>) -> Seq<RawEventDeclV> {
    Seq::new(decls.len(), |i: int| decls[i]@)
}

/// The events a parsed contract declares: name, signature hash and raw
/// parameters of each, in the order `ethabi::Contract::events` yields them.
/// A function of the contract value alone; what it is on a given contract
/// only the trusted reading below says.
pub uninterp spec fn contract_event_decls(c: ethabi::Contract) -> Seq<RawEventDeclV>;

/// The codec kind one ethabi declared type maps to: a function of the
/// declared type alone, fixed by the trusted mapping below.
pub uninterp spec fn declared_kind(p: ethabi::ParamType) -> ParamKind;

/// Relies on ethabi::Contract::events, ethabi::Event::signature and the
/// fields of ethabi::Event and ethabi::EventParam: the result is exactly
/// the contract's declared events — each with its name, its signature hash
/// as topic zero (an `H256`, so 32 bytes), and its parameters in declared
/// order. `events` yields the events in the contract's name order.
#[verifier::external_body]
fn raw_events_of_contract(contract: &ethabi::Contract) -> (r: Vec<RawEventDecl>)
    ensures
        raw_decls_deep_view(r@) == contract_event_decls(*contract),
        forall|i: int| 0 <= i < r@.len() ==> (#[trigger] r@[i]).topic0@.len() == 32,
{
    contract.events().map(
        |e| RawEventDecl {
            name: e.name.clone(),
            topic0: e.signature().as_bytes().to_vec(),
            inputs: e.inputs.iter().map(
                |p| RawParamDecl { name: p.name.clone(), kind: p.kind.clone(), indexed: p.indexed },
            ).collect(),
        },
    ).collect()
}

/// Relies on ethabi::ParamType and its is_dynamic: one arm per declared
/// type. Widths are dropped — every uint and int is one word on the wire.
/// A dynamic composite (an array, or a fixed array or tuple holding a
/// dynamic member) occupies one offset word and becomes
/// `DynamicComposite`, decoded as a null field; a static composite inlines
/// several words whose width the kind does not carry, so it comes back
/// `Unsupported` and an event declaring one never matches.
#[verifier::external_body]
fn kind_of_param_type(p: &ethabi::ParamType) -> (r: ParamKind)
    ensures
        r == declared_kind(*p),
{
    match p {
        ethabi::ParamType::Address => ParamKind::Address,
        ethabi::ParamType::Uint(_) => ParamKind::Uint,
        ethabi::ParamType::Int(_) => ParamKind::Int,
        ethabi::ParamType::Bool => ParamKind::Bool,
        ethabi::ParamType::Bytes => ParamKind::Bytes,
        ethabi::ParamType::String => ParamKind::Str,
        ethabi::ParamType::FixedBytes(n) => ParamKind::FixedBytes(*n),
        _ if p.is_dynamic() => ParamKind::DynamicComposite,
        _ => ParamKind::Unsupported,
    }
}

/// The schemas a declaration list maps to: names and hashes carried over,
/// every declared type replaced by its kind.
pub open spec fn spec_schemas_of_decls(decls: Seq<RawEventDeclV>) -> Seq<SchemaV> {
    Seq::new(
        decls.len(),
        |i: int|
            SchemaV {
                name: decls[i].name,
                topic0: decls[i].topic0,
                params: Seq::new(
                    decls[i].inputs.len(),
                    |k: int|
                        ParamV {
                            name: decls[i].inputs[k].name,
                            kind: declared_kind(decls[i].inputs[k].kind),
                            indexed: decls[i].inputs[k].indexed,
                        },
                ),
            },
    )
}

/// Turns the raw declarations into the codec's schemas, mapping each
/// declared type onto a kind.
fn schemas_of_contract(contract: &ethabi::Contract) -> (r: Vec<EventSchema>)
    ensures
        schemas_deep_view(r@) == spec_schemas_of_decls(contract_event_decls(*contract)),
        forall|i: int| 0 <= i < r@.len() ==> (#[trigger] r@[i]).topic0@.len() == 32,
{
    let decls = raw_events_of_contract(contract);
    let ghost dv = contract_event_decls(*contract);
    let ghost target = spec_schemas_of_decls(dv);
    proof {
        assert(dv == raw_decls_deep_view(decls@));
        assert(target.len() == decls@.len());
    }
    let mut schemas: Vec<EventSchema> = Vec::new();
    let mut i: usize = 0;
    while i < decls.len()
        invariant
            i <= decls@.len(),
            dv == raw_decls_deep_view(decls@),
            target == spec_schemas_of_decls(dv),
            target.len() == decls@.len(),
            forall|j: int| 0 <= j < decls@.len() ==> (#[trigger] decls@[j]).topic0@.len() == 32,
            schemas@.len() == i,
            forall|j: int|
                0 <= j < i ==> #[trigger] schemas_deep_view(schemas@)[j] == target[j],
            forall|j: int| 0 <= j < schemas@.len() ==> (#[trigger] schemas@[j]).topic0@.len() == 32,
        decreases decls@.len() - i,
    {
        let decl = &decls[i];
        proof {
            assert(dv[i as int] == decls@[i as int]@);
        }
        let mut params: Vec<crate::abi::EventParam> = Vec::new();
        let mut k: usize = 0;
        while k < decl.inputs.len()
            invariant
                k <= decl.inputs@.len(),
                i < decls@.len(),
                dv == raw_decls_deep_view(decls@),
                target == spec_schemas_of_decls(dv),
                target.len() == decls@.len(),
                decl == decls@[i as int],
                dv[i as int] == decls@[i as int]@,
                params@.len() == k,
                forall|l: int|
                    0 <= l < k ==> #[trigger] crate::abi::params_deep_view(params@)[l]
                        == target[i as int].params[l],
            decreases decl.inputs@.len() - k,
        {
            let input = &decl.inputs[k];
            let kind = kind_of_param_type(&input.kind);
            let ghost before = params@;
            params.push(
                crate::abi::EventParam { name: input.name.clone(), kind, indexed: input.indexed },
            );
            proof {
                assert(dv[i as int].inputs[k as int] == decl.inputs@[k as int]@);
                assert(target[i as int].params[k as int] == ParamV {
                    name: dv[i as int].inputs[k as int].name,
                    kind: declared_kind(dv[i as int].inputs[k as int].kind),
                    indexed: dv[i as int].inputs[k as int].indexed,
                });
                assert(crate::abi::params_deep_view(params@)[k as int] == params@[k as int]@);
                assert(forall|l: int|
                    0 <= l < k ==> #[trigger] crate::abi::params_deep_view(params@)[l]
                        == crate::abi::params_deep_view(before)[l]);
            }
            k = k + 1;
        }
        let topic0 = crate::abi::copy_range(&decl.topic0, 0, decl.topic0.len());
        proof {
            assert(topic0@ =~= decl.topic0@);
        }
        let ghost before_schemas = schemas@;
        let built = EventSchema { name: decl.name.clone(), topic0, params };
        proof {
            assert(crate::abi::params_deep_view(built.params@) =~= target[i as int].params);
            assert(built@ == target[i as int]);
        }
        schemas.push(built);
        proof {
            assert(schemas_deep_view(schemas@)[i as int] == schemas@[i as int]@);
            assert(forall|j: int|
                0 <= j < i ==> #[trigger] schemas_deep_view(schemas@)[j] == schemas_deep_view(
                    before_schemas,
                )[j]);
        }
        i = i + 1;
    }
    proof {
        assert(schemas_deep_view(schemas@) =~= target);
    }
    schemas
}

/// The decimal digit for a value below ten.
pub open spec fn dec_digit_char(v: int) -> char {
    if v == 0 {
        '0'
    } else if v == 1 {
        '1'
    } else if v == 2 {
        '2'
    } else if v == 3 {
        '3'
    } else if v == 4 {
        '4'
    } else if v == 5 {
        '5'
    } else if v == 6 {
        '6'
    } else if v == 7 {
        '7'
    } else if v == 8 {
        '8'
    } else {
        '9'
    }
}

/// The decimal spelling of a non-negative value, most significant digit
/// first, with no leading zeros.
pub open spec fn dec_chars_of(n: int) -> Seq<char>
    decreases n,
{
    if n < 10 {
        seq![dec_digit_char(n)]
    } else {
        dec_chars_of(n / 10) + seq![dec_digit_char(n % 10)]
    }
}

/// Relies on the 256-bit unsigned integer ethabi re-exports:
/// from_big_endian reads a 32-byte big-endian value, and its Display writes
/// that value in decimal with no leading zeros.
#[verifier::external_body]
fn u256_decimal(b: &Vec<u8>) -> (r: String)
    requires
        b@.len() == 32,
    ensures
        r@ == dec_chars_of(be_value(b@)),
{
    ethabi::Uint::from_big_endian(b.as_slice()).to_string()
}

/// One decoded field as it is persisted: strings for addresses, integers
/// and byte blobs, booleans as they are, `Null` for anything the store has
/// no scalar for.
#[derive(Clone, Debug, PartialEq, Eq)]
pub enum FieldValue {
    S(String),
    B(bool),
    Null,
}

/// The mathematical value of one persisted field.
pub enum FieldV {
    S(Seq<char>),
    B(bool),
    Null,
}

impl View for FieldValue {
    type V = FieldV;

    open spec fn view(&self) -> FieldV {
        match self {
            FieldValue::S(s) => FieldV::S(s@),
            FieldValue::B(b) => FieldV::B(*b),
            FieldValue::Null => FieldV::Null,
        }
    }
}

/// The scalar a decoded token is persisted as: addresses as 0x-prefixed
/// hex, integers as decimal strings, byte blobs as bare hex, strings and
/// booleans as themselves, and anything else as `Null`.
pub open spec fn spec_coerce(t: TokenV) -> FieldV {
    match t {
        TokenV::Address(a) => FieldV::S(prefixed_hex_of(a)),
        TokenV::Uint(b) => FieldV::S(dec_chars_of(be_value(b))),
        TokenV::Int(b) => FieldV::S(dec_chars_of(be_value(b))),
        TokenV::Bool(b) => FieldV::B(b),
        TokenV::Bytes(b) => FieldV::S(hex_of(b)),
        TokenV::Str(s) => FieldV::S(s),
        TokenV::FixedBytes(_) => FieldV::Null,
        TokenV::Opaque => FieldV::Null,
    }
}

/// Writes one decoded token as the scalar it is persisted as.
pub fn token_to_field(t: &TokenValue) -> (r: FieldValue)
    requires
        crate::abi::wf_token(t@),
    ensures
        r@ == spec_coerce(t@),
{
    match t {
        TokenValue::Address(a) => FieldValue::S(prefixed_hex(a)),
        TokenValue::Uint(b) => FieldValue::S(u256_decimal(b)),
        TokenValue::Int(b) => FieldValue::S(u256_decimal(b)),
        TokenValue::Bool(b) => FieldValue::B(*b),
        TokenValue::Bytes(b) => FieldValue::S(hex_encode(b)),
        TokenValue::Str(s) => FieldValue::S(s.clone()),
        TokenValue::FixedBytes(_) => FieldValue::Null,
        TokenValue::Opaque => FieldValue::Null,
    }
}

/// The decoded fields of one matched event: each parameter's name beside
/// its coerced value.
pub open spec fn spec_fields(params: Seq<ParamV>, ts: Seq<TokenV>) -> Seq<(Seq<char>, FieldV)> {
    Seq::new(ts.len(), |i: int| (params[i].name, spec_coerce(ts[i])))
}

/// The field pairs, each as its mathematical value.
pub open spec fn fields_deep_view(fields: Seq<(String, FieldValue)>) -> Seq<(Seq<char>, FieldV)> {
    Seq::new(fields.len(), |i: int| (fields[i].0@, fields[i].1@))
}

proof fn lemma_dec_static_word_wf(k: ParamKind, w: Seq<u8>)
    requires
        w.len() == 32,
        is_static_kind(k),
        kind_width_ok(k),
    ensures
        crate::abi::wf_token(spec_dec_static_word(k, w)),
{
}

proof fn lemma_dec_params_wf(
    params: Seq<ParamV>,
    topics: Seq<Seq<u8>>,
    ti: int,
    data: Seq<u8>,
    bi: int,
    ts: Seq<TokenV>,
)
    requires
        spec_dec_params(params, topics, ti, data, bi) == Some(ts),
    ensures
        ts.len() == params.len(),
        forall|i: int| 0 <= i < ts.len() ==> crate::abi::wf_token(#[trigger] ts[i]),
    decreases params.len(),
{
    if params.len() == 0 {
    } else {
        let p = params[0];
        if p.indexed {
            let t = spec_dec_topic(p.kind, topics[ti])->0;
            let rest = spec_dec_params(params.drop_first(), topics, ti + 1, data, bi)->0;
            lemma_dec_params_wf(params.drop_first(), topics, ti + 1, data, bi, rest);
            assert(ts == seq![t] + rest);
            if is_static_kind(p.kind) {
                lemma_dec_static_word_wf(p.kind, topics[ti]);
            }
            assert(crate::abi::wf_token(t));
            assert(forall|i: int| 0 <= i < ts.len() ==> crate::abi::wf_token(#[trigger] ts[i]))
                by {
                assert(ts[0] == t);
                assert(forall|i: int| 1 <= i < ts.len() ==> #[trigger] ts[i] == rest[i - 1]);
            }
        } else {
            let t = spec_dec_body_param(p.kind, data, bi)->0;
            let rest = spec_dec_params(params.drop_first(), topics, ti, data, bi + 1)->0;
            lemma_dec_params_wf(params.drop_first(), topics, ti, data, bi + 1, rest);
            assert(ts == seq![t] + rest);
            if is_static_kind(p.kind) {
                lemma_dec_static_word_wf(p.kind, data.subrange(32 * bi, 32 * bi + 32));
            }
            assert(crate::abi::wf_token(t));
            assert(forall|i: int| 0 <= i < ts.len() ==> crate::abi::wf_token(#[trigger] ts[i]))
                by {
                assert(ts[0] == t);
                assert(forall|i: int| 1 <= i < ts.len() ==> #[trigger] ts[i] == rest[i - 1]);
            }
        }
    }
}

/// Every token a matched event decodes to is well shaped, and there is one
/// per declared parameter.
pub proof fn lemma_decode_event_wf(schema: SchemaV, log: RawLogV, ts: Seq<TokenV>)
    requires
        spec_decode_event(schema, log) == Some(ts),
    ensures
        ts.len() == schema.params.len(),
        forall|i: int| 0 <= i < ts.len() ==> crate::abi::wf_token(#[trigger] ts[i]),
{
    lemma_dec_params_wf(schema.params, log.topics, 1, log.data, 0, ts);
}

proof fn lemma_decode_log_event(schemas: Seq<SchemaV>, log: RawLogV, k: int, ts: Seq<TokenV>)
    requires
        spec_decode_log(schemas, log) == Some((k, ts)),
    ensures
        0 <= k < schemas.len(),
        spec_decode_event(schemas[k], log) == Some(ts),
    decreases schemas.len(),
{
    if schemas.len() > 0 {
        match spec_decode_event(schemas[0], log) {
            Some(_) => {},
            None => {
                lemma_decode_log_event(schemas.drop_first(), log, k - 1, ts);
            },
        }
    }
}

/// Matches raw logs against the events an ABI declares.
pub struct EventDecoder {
    pub schemas: Vec<EventSchema>,
}

impl EventDecoder {
    /// A decoder for the events `contract` declares: its schemas are
    /// exactly the contract's declared events with each declared type
    /// mapped to its kind.
    pub fn new(contract: &ethabi::Contract) -> (r: EventDecoder)
        ensures
            schemas_deep_view(r.schemas@) == spec_schemas_of_decls(
                contract_event_decls(*contract),
            ),
            forall|i: int|
                0 <= i < r.schemas@.len() ==> (#[trigger] r.schemas@[i]).topic0@.len() == 32,
    {
        EventDecoder { schemas: schemas_of_contract(contract) }
    }

    /// A decoder for an explicit list of event schemas, first-declared
    /// first.
    pub fn from_schemas(schemas: Vec<EventSchema>) -> (r: EventDecoder)
        ensures
            r.schemas == schemas,
    {
        EventDecoder { schemas }
    }

    /// Decodes a raw log against the declared events: the first event whose
    /// signature hash and parameter layout match wins, and its fields come
    /// back coerced to scalars. `UnknownEvent` exactly when no declared
    /// event matches.
    pub fn decode_log(&self, raw_log: &RawLog) -> (r: Result<
        (String, Vec<(String, FieldValue)>),
        Error,
    >)
        ensures
            match spec_decode_log(schemas_deep_view(self.schemas@), raw_log@) {
                Some(kts) => r matches Ok(p) && p.0@ == schemas_deep_view(self.schemas@)[kts.0].name
                    && fields_deep_view(p.1@) == spec_fields(
                    schemas_deep_view(self.schemas@)[kts.0].params,
                    kts.1,
                ),
                None => r == Err::<(String, Vec<(String, FieldValue)>), Error>(
                    Error::UnknownEvent,
                ),
            },
    {
        let ghost sv = schemas_deep_view(self.schemas@);
        proof {
            assert(sv.skip(0) =~= sv);
        }
        match decode_first_match(&self.schemas, 0, raw_log) {
            None => Err(Error::UnknownEvent),
            Some((k, tokens)) => {
                proof {
                    lemma_decode_log_event(sv, raw_log@, k as int, tokens_deep_view(tokens@));
                    lemma_decode_event_wf(sv[k as int], raw_log@, tokens_deep_view(tokens@));
                    assert(sv[k as int] == self.schemas@[k as int]@);
                }
                let schema = &self.schemas[k];
                let name = schema.name.clone();
                let mut fields: Vec<(String, FieldValue)> = Vec::new();
                let mut i: usize = 0;
                proof {
                    assert(tokens_deep_view(tokens@).len() == sv[k as int].params.len());
                    assert(schema.params@.len() == sv[k as int].params.len());
                }
                while i < tokens.len()
                    invariant
                        i <= tokens@.len(),
                        tokens@.len() == schema.params@.len(),
                        forall|l: int|
                            0 <= l < tokens@.len() ==> crate::abi::wf_token(
                                #[trigger] tokens_deep_view(tokens@)[l],
                            ),
                        schema@ == sv[k as int],
                        fields@.len() == i,
                        forall|l: int|
                            0 <= l < i ==> #[trigger] fields_deep_view(fields@)[l] == spec_fields(
                                sv[k as int].params,
                                tokens_deep_view(tokens@),
                            )[l],
                    decreases tokens@.len() - i,
                {
                    proof {
                        assert(tokens_deep_view(tokens@)[i as int] == tokens@[i as int]@);
                        assert(sv[k as int].params[i as int] == schema.params@[i as int]@);
                    }
                    let pname = schema.params[i].name.clone();
                    let value = token_to_field(&tokens[i]);
                    let ghost old_fields = fields@;
                    fields.push((pname, value));
                    proof {
                        assert(fields@[i as int] == (pname, value));
                        assert(fields_deep_view(fields@)[i as int] == (pname@, value@));
                        let ghost spec_fs = spec_fields(
                            sv[k as int].params,
                            tokens_deep_view(tokens@),
                        );
                        assert(spec_fs[i as int] == (
                            sv[k as int].params[i as int].name,
                            spec_coerce(tokens_deep_view(tokens@)[i as int]),
                        ));
                        assert(forall|l: int|
                            0 <= l < i ==> #[trigger] fields_deep_view(fields@)[l]
                                == fields_deep_view(old_fields)[l]);
                    }
                    i = i + 1;
                }
                proof {
                    assert(fields_deep_view(fields@) =~= spec_fields(
                        sv[k as int].params,
                        tokens_deep_view(tokens@),
                    ));
                }
                Ok((name, fields))
            },
        }
    }
}

} // verus!
