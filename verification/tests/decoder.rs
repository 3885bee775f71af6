use evm_indexer::abi::{encode_event, EventParam, EventSchema, ParamKind, RawLog, TokenValue};
use evm_indexer::decoder::{EventDecoder, FieldValue};
use evm_indexer::error::Error;
use evm_indexer::hexstr::prefixed_hex;

fn word_with_trailing(byte: u8) -> Vec<u8> {
    let mut w = vec![0u8; 32];
    w[31] = byte;
    w
}

fn sample_address() -> Vec<u8> {
    let mut a = vec![0u8; 20];
    a[18] = 0xde;
    a[19] = 0xad;
    a
}

fn tickets_bought_schema(topic_byte: u8) -> EventSchema {
    EventSchema {
        name: "TicketsBought".to_string(),
        topic0: word_with_trailing(topic_byte),
        params: vec![
            EventParam { name: "buyer".to_string(), kind: ParamKind::Address, indexed: true },
            EventParam { name: "amount".to_string(), kind: ParamKind::Uint, indexed: false },
        ],
    }
}

#[test]
fn hex_encoding_is_lowercase_two_digits_per_byte() {
    assert_eq!(prefixed_hex(&vec![0xde, 0xad]), "0xdead");
    assert_eq!(prefixed_hex(&vec![0x01, 0x02, 0x03, 0x0f, 0x10]), "0x0102030f10");
    assert_eq!(prefixed_hex(&vec![0xab, 0x00]), "0xab00");
}

#[test]
fn round_trip_tickets_bought() {
    let schema = tickets_bought_schema(0x77);
    let decoder = EventDecoder::from_schemas(vec![schema.clone()]);
    let args = vec![
        TokenValue::Address(sample_address()),
        TokenValue::Uint(word_with_trailing(42)),
    ];
    let mut log = encode_event(&schema, &args);
    log.block_number = Some(100);
    let (name, fields) = decoder.decode_log(&log).expect("encoded log must decode");
    assert_eq!(name, "TicketsBought");
    assert_eq!(fields.len(), 2);
    assert_eq!(fields[0].0, "buyer");
    match &fields[0].1 {
        FieldValue::S(s) => assert_eq!(s, "0x000000000000000000000000000000000000dead"),
        _ => panic!("buyer must be a string"),
    }
    assert_eq!(fields[1].0, "amount");
    match &fields[1].1 {
        FieldValue::S(s) => assert_eq!(s, "42"),
        _ => panic!("amount must be a string"),
    }
}

#[test]
fn round_trip_dynamic_and_static_kinds() {
    let schema = EventSchema {
        name: "Mixed".to_string(),
        topic0: word_with_trailing(0x01),
        params: vec![
            EventParam { name: "who".to_string(), kind: ParamKind::Address, indexed: false },
            EventParam { name: "memo".to_string(), kind: ParamKind::Str, indexed: false },
            EventParam { name: "flag".to_string(), kind: ParamKind::Bool, indexed: false },
            EventParam { name: "blob".to_string(), kind: ParamKind::Bytes, indexed: false },
            EventParam { name: "count".to_string(), kind: ParamKind::Int, indexed: false },
            EventParam { name: "id".to_string(), kind: ParamKind::FixedBytes(32), indexed: true },
        ],
    };
    let decoder = EventDecoder::from_schemas(vec![schema.clone()]);
    let args = vec![
        TokenValue::Address(sample_address()),
        TokenValue::Str("hello indexer".to_string()),
        TokenValue::Bool(true),
        TokenValue::Bytes(vec![0xca, 0xfe, 0xba, 0xbe, 0x00]),
        TokenValue::Int(word_with_trailing(7)),
        TokenValue::FixedBytes(word_with_trailing(0x99)),
    ];
    let log = encode_event(&schema, &args);
    let (name, fields) = decoder.decode_log(&log).expect("encoded log must decode");
    assert_eq!(name, "Mixed");
    assert_eq!(fields.len(), 6);
    match &fields[1].1 {
        FieldValue::S(s) => assert_eq!(s, "hello indexer"),
        _ => panic!("memo must be a string"),
    }
    match &fields[2].1 {
        FieldValue::B(b) => assert!(*b),
        _ => panic!("flag must be a bool"),
    }
    match &fields[3].1 {
        FieldValue::S(s) => assert_eq!(s, "cafebabe00"),
        _ => panic!("blob must be a hex string"),
    }
    match &fields[4].1 {
        FieldValue::S(s) => assert_eq!(s, "7"),
        _ => panic!("count must be a decimal string"),
    }
    // an indexed fixed-bytes value has no scalar form in the store
    assert!(matches!(fields[5].1, FieldValue::Null));
}

#[test]
fn large_uint_decodes_to_full_decimal() {
    let schema = EventSchema {
        name: "Big".to_string(),
        topic0: word_with_trailing(0x02),
        params: vec![
            EventParam { name: "v".to_string(), kind: ParamKind::Uint, indexed: false },
        ],
    };
    let decoder = EventDecoder::from_schemas(vec![schema.clone()]);
    // 2^256 - 1: every byte 0xff
    let args = vec![TokenValue::Uint(vec![0xff; 32])];
    let log = encode_event(&schema, &args);
    let (_, fields) = decoder.decode_log(&log).expect("encoded log must decode");
    match &fields[0].1 {
        FieldValue::S(s) => assert_eq!(
            s,
            "115792089237316195423570985008687907853269984665640564039457584007913129639935"
        ),
        _ => panic!("v must be a string"),
    }
}

#[test]
fn unknown_topic_is_rejected() {
    let decoder = EventDecoder::from_schemas(vec![tickets_bought_schema(0x77)]);
    let log = RawLog {
        topics: vec![word_with_trailing(0x78), word_with_trailing(0)],
        data: word_with_trailing(1),
        block_number: Some(5),
        transaction_hash: None,
    };
    assert_eq!(decoder.decode_log(&log), Err(Error::UnknownEvent));
}

#[test]
fn topic_count_mismatch_is_rejected() {
    let schema = tickets_bought_schema(0x77);
    let decoder = EventDecoder::from_schemas(vec![schema.clone()]);
    let log = RawLog {
        // signature matches but the indexed buyer topic is missing
        topics: vec![schema.topic0.clone()],
        data: word_with_trailing(1),
        block_number: None,
        transaction_hash: None,
    };
    assert_eq!(decoder.decode_log(&log), Err(Error::UnknownEvent));
}

#[test]
fn first_declared_event_wins_ties() {
    let mut first = tickets_bought_schema(0x55);
    first.name = "First".to_string();
    let mut second = tickets_bought_schema(0x55);
    second.name = "Second".to_string();
    let decoder = EventDecoder::from_schemas(vec![first.clone(), second]);
    let args = vec![
        TokenValue::Address(sample_address()),
        TokenValue::Uint(word_with_trailing(1)),
    ];
    let log = encode_event(&first, &args);
    let (name, _) = decoder.decode_log(&log).expect("encoded log must decode");
    assert_eq!(name, "First");
}

#[test]
fn decoder_from_ethabi_contract_decodes_real_signature() {
    let abi = r#"[
        {
            "type": "event",
            "name": "TicketsBought",
            "anonymous": false,
            "inputs": [
                {"name": "buyer", "type": "address", "indexed": true},
                {"name": "amount", "type": "uint256", "indexed": false}
            ]
        }
    ]"#;
    let contract = ethabi::Contract::load(abi.as_bytes()).expect("abi must parse");
    let decoder = EventDecoder::new(&contract);
    assert_eq!(decoder.schemas.len(), 1);
    let schema = decoder.schemas[0].clone();
    assert_eq!(schema.name, "TicketsBought");
    // the signature hash must be what ethabi computes for the declaration
    let expected = contract.event("TicketsBought").unwrap().signature();
    assert_eq!(schema.topic0.as_slice(), expected.as_bytes());
    let args = vec![
        TokenValue::Address(sample_address()),
        TokenValue::Uint(word_with_trailing(42)),
    ];
    let log = encode_event(&schema, &args);
    let (name, fields) = decoder.decode_log(&log).expect("encoded log must decode");
    assert_eq!(name, "TicketsBought");
    match &fields[1].1 {
        FieldValue::S(s) => assert_eq!(s, "42"),
        _ => panic!("amount must be a string"),
    }
    // and ethabi itself parses the encoded log the same way
    let parsed = contract
        .event("TicketsBought")
        .unwrap()
        .parse_log(ethabi::RawLog {
            topics: log.topics.iter().map(|t| ethabi::Hash::from_slice(t)).collect(),
            data: log.data.clone(),
        })
        .expect("ethabi must parse the encoded log");
    assert_eq!(parsed.params[1].value, ethabi::Token::Uint(42u64.into()));
}

#[test]
fn encoded_layout_matches_the_wire_format() {
    let schema = EventSchema {
        name: "OneString".to_string(),
        topic0: word_with_trailing(0x03),
        params: vec![
            EventParam { name: "s".to_string(), kind: ParamKind::Str, indexed: false },
        ],
    };
    let args = vec![TokenValue::Str("ab".to_string())];
    let log = encode_event(&schema, &args);
    assert_eq!(log.topics.len(), 1);
    // head word: offset 32; length word: 2; content "ab" padded to one word
    assert_eq!(log.data.len(), 96);
    assert_eq!(log.data[31], 32);
    assert_eq!(log.data[63], 2);
    assert_eq!(&log.data[64..66], b"ab");
    assert!(log.data[66..96].iter().all(|b| *b == 0));
}

#[test]
fn dynamic_composite_fields_decode_to_null() {
    let schema = EventSchema {
        name: "WinnersPicked".to_string(),
        topic0: word_with_trailing(0x21),
        params: vec![
            EventParam { name: "round".to_string(), kind: ParamKind::Uint, indexed: false },
            EventParam {
                name: "winners".to_string(),
                kind: ParamKind::DynamicComposite,
                indexed: false,
            },
        ],
    };
    let decoder = EventDecoder::from_schemas(vec![schema.clone()]);
    // two head words: the round value, then the array's offset word
    let mut data = word_with_trailing(7);
    data.extend_from_slice(&word_with_trailing(64));
    let log = RawLog {
        topics: vec![schema.topic0.clone()],
        data,
        block_number: Some(9),
        transaction_hash: None,
    };
    let (name, fields) = decoder.decode_log(&log).expect("composite log must decode");
    assert_eq!(name, "WinnersPicked");
    match &fields[0].1 {
        FieldValue::S(s) => assert_eq!(s, "7"),
        _ => panic!("round must be a string"),
    }
    assert_eq!(fields[1].0, "winners");
    assert!(matches!(fields[1].1, FieldValue::Null));
}

#[test]
fn ethabi_encoded_array_event_decodes_with_null_field() {
    let abi = r#"[
        {
            "type": "event",
            "name": "WinnersPicked",
            "anonymous": false,
            "inputs": [
                {"name": "round", "type": "uint256", "indexed": false},
                {"name": "winners", "type": "address[]", "indexed": false}
            ]
        }
    ]"#;
    let contract = ethabi::Contract::load(abi.as_bytes()).expect("abi must parse");
    let decoder = EventDecoder::new(&contract);
    assert_eq!(decoder.schemas[0].params[1].kind, ParamKind::DynamicComposite);
    let event = contract.event("WinnersPicked").unwrap();
    let data = ethabi::encode(&[
        ethabi::Token::Uint(7u64.into()),
        ethabi::Token::Array(vec![ethabi::Token::Address([0x11u8; 20].into())]),
    ]);
    let log = RawLog {
        topics: vec![event.signature().as_bytes().to_vec()],
        data,
        block_number: Some(12),
        transaction_hash: None,
    };
    let (name, fields) = decoder.decode_log(&log).expect("ethabi-encoded log must decode");
    assert_eq!(name, "WinnersPicked");
    match &fields[0].1 {
        FieldValue::S(s) => assert_eq!(s, "7"),
        _ => panic!("round must be a string"),
    }
    assert!(matches!(fields[1].1, FieldValue::Null));
}

#[test]
fn static_composite_params_leave_the_event_unmatched() {
    let abi = r#"[
        {
            "type": "event",
            "name": "PairSet",
            "anonymous": false,
            "inputs": [
                {"name": "pair", "type": "uint256[2]", "indexed": false}
            ]
        }
    ]"#;
    let contract = ethabi::Contract::load(abi.as_bytes()).expect("abi must parse");
    let decoder = EventDecoder::new(&contract);
    assert_eq!(decoder.schemas[0].params[0].kind, ParamKind::Unsupported);
    let event = contract.event("PairSet").unwrap();
    let data = ethabi::encode(&[ethabi::Token::FixedArray(vec![
        ethabi::Token::Uint(1u64.into()),
        ethabi::Token::Uint(2u64.into()),
    ])]);
    let log = RawLog {
        topics: vec![event.signature().as_bytes().to_vec()],
        data,
        block_number: None,
        transaction_hash: None,
    };
    // a static composite inlines several words; its width is not carried
    // over, so the event never matches
    assert_eq!(decoder.decode_log(&log), Err(Error::UnknownEvent));
}
