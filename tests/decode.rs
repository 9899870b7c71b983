use npc_events::data::{Card, ConnectType, Connector, Deck, Effect, RawEvent, NPC, unpack_sequence};
use npc_events::yaml::{get_field, get_uint, ErrorKind, Field, FieldKind, YamlError};

fn s(k: &str, v: Field) -> (String, Field) {
    (k.to_string(), v)
}

fn text(t: &str) -> Field {
    Field::Str(t.to_string())
}

fn card_field(input: u64, output: u64, effect: u64) -> Field {
    Field::Struct(vec![
        s("input", Field::Uint(input)),
        s("output", Field::Uint(output)),
        s("effect", Field::Uint(effect)),
    ])
}

fn deck_entries(n_cards: usize) -> Vec<(String, Field)> {
    let mut cards = Vec::new();
    for i in 0..n_cards {
        cards.push(card_field(i as u64 + 1, 2, 3));
    }
    vec![s("anchor", card_field(1, 4, 0)), s("cards", Field::List(cards))]
}

fn event_entries(id: &str, sequence: &str, count: u64, override_deck: u64) -> Vec<(String, Field)> {
    vec![
        s("id", text(id)),
        s("sequence", text(sequence)),
        s("sequenceCount", Field::Uint(count)),
        s("strikeCount", Field::Uint(4)),
        s("overrideDeck", Field::Uint(override_deck)),
        s("npc", Field::Struct(vec![s("guid", text("g1"))])),
    ]
}

fn err_kind<T>(r: Result<T, YamlError>) -> (ErrorKind, Option<String>, String) {
    match r {
        Ok(_) => panic!("expected an error"),
        Err(e) => (e.kind, e.context, e.subject),
    }
}

#[test]
fn connector_bits_examples() {
    assert_eq!(Connector::from_bits(0x5).tags().to_vec(), vec![ConnectType::Circle, ConnectType::Square]);
    assert_eq!(
        Connector::from_bits(0x3F).tags().to_vec(),
        vec![
            ConnectType::Circle,
            ConnectType::Triangle,
            ConnectType::Square,
            ConnectType::Diamond,
            ConnectType::Dog,
            ConnectType::Spiral,
        ]
    );
    assert!(Connector::from_bits(0).tags().to_vec().is_empty());
    assert!(Connector::from_bits(0x40).tags().to_vec().is_empty());
    assert_eq!(Connector::from_bits(0x10).tags().to_vec(), vec![ConnectType::Spiral]);
    assert_eq!(Connector::from_bits(0x20).tags().to_vec(), vec![ConnectType::Dog]);
}

#[test]
fn connector_mask_round_trip_values() {
    for n in [0u64, 1, 0x5, 0x3F, 0x40, 0x7F, 0x2A, 0xFFFF_FFFF_FFFF_FFFF, 0x1234_5678] {
        assert_eq!(Connector::from_bits(n).bits(), n & 0x3F);
    }
}

#[test]
fn connector_mask_all_small_values() {
    for n in 0u64..=0x1FF {
        for high in [0u64, 1 << 40, u64::MAX << 9] {
            let m = n | high;
            let c = Connector::from_bits(m);
            assert_eq!(c.bits(), m & 0x3F);
            assert_eq!(c.tags().to_vec().len() as u32, (m & 0x3F).count_ones());
        }
    }
}

#[test]
fn connector_has_tags() {
    let c = Connector::from_bits(0x21);
    assert!(c.has(ConnectType::Circle));
    assert!(c.has(ConnectType::Dog));
    assert!(!c.has(ConnectType::Spiral));
}

#[test]
fn connector_from_non_uint_fails() {
    let r = Connector::from_field(&Field::Int(3));
    assert_eq!(err_kind(r).0, ErrorKind::NotA(FieldKind::Uint));
}

#[test]
fn effect_codes() {
    assert_eq!(Effect::from_code(0), Effect::NoEffect);
    assert_eq!(Effect::from_code(10), Effect::NoEffect);
    assert_eq!(Effect::from_code(u64::MAX), Effect::NoEffect);
    let expected = [
        Effect::Chain,
        Effect::Inherit,
        Effect::Duplicate,
        Effect::Insert,
        Effect::Collapse,
        Effect::Redraw,
        Effect::ViewHand,
        Effect::Choose,
        Effect::Listen,
    ];
    for (i, e) in expected.iter().enumerate() {
        assert_eq!(Effect::from_code(i as u64 + 1), *e);
    }
}

#[test]
fn effect_from_field() {
    assert_eq!(Effect::from_field(&Field::Uint(7)).unwrap(), Effect::ViewHand);
    assert_eq!(err_kind(Effect::from_field(&text("7"))).0, ErrorKind::NotA(FieldKind::Uint));
}

#[test]
fn accessor_missing_and_wrong_type() {
    let m = vec![s("a", Field::Uint(1)), s("b", text("x"))];
    assert!(matches!(get_field(&m, "a", None), Ok(Field::Uint(1))));
    let ctx = "e9".to_string();
    let (k, c, sub) = err_kind(get_field(&m, "zz", Some(&ctx)));
    assert_eq!(k, ErrorKind::MissingKey);
    assert_eq!(c, Some("e9".to_string()));
    assert_eq!(sub, "zz");
    let (k, c, sub) = err_kind(get_uint(&m, "b", None));
    assert_eq!(k, ErrorKind::WrongType(FieldKind::Uint));
    assert_eq!(c, None);
    assert_eq!(sub, "b");
    assert_eq!(get_uint(&m, "a", None).unwrap(), 1);
}

#[test]
fn card_decodes() {
    let c = Card::from_field(&card_field(0x5, 0x30, 2)).unwrap();
    assert_eq!(c.input.tags().to_vec(), vec![ConnectType::Circle, ConnectType::Square]);
    assert_eq!(c.output.tags().to_vec(), vec![ConnectType::Dog, ConnectType::Spiral]);
    assert_eq!(c.effect, Effect::Inherit);
}

#[test]
fn card_missing_fields() {
    for key in ["input", "output", "effect"] {
        let mut m = vec![
            s("input", Field::Uint(1)),
            s("output", Field::Uint(1)),
            s("effect", Field::Uint(1)),
        ];
        m.retain(|(k, _)| k.as_str() != key);
        let (k, _, sub) = err_kind(Card::from_entries(&m));
        assert_eq!(k, ErrorKind::MissingKey);
        assert_eq!(sub, key);
    }
    assert_eq!(err_kind(Card::from_field(&Field::Uint(1))).0, ErrorKind::NotA(FieldKind::Struct));
}

#[test]
fn deck_with_no_cards() {
    let d = Deck::from_entries(&deck_entries(0)).unwrap();
    assert!(d.cards.is_empty());
    assert_eq!(d.anchor.output.tags().to_vec(), vec![ConnectType::Square]);
}

#[test]
fn deck_keeps_card_order() {
    let d = Deck::from_entries(&deck_entries(3)).unwrap();
    assert_eq!(d.cards.len(), 3);
    assert_eq!(d.cards[0].input.tags().to_vec(), vec![ConnectType::Circle]);
    assert_eq!(d.cards[1].input.tags().to_vec(), vec![ConnectType::Triangle]);
    assert_eq!(d.cards[2].input.tags().to_vec(), vec![ConnectType::Circle, ConnectType::Triangle]);
}

#[test]
fn deck_errors() {
    let mut m = deck_entries(1);
    m.retain(|(k, _)| k.as_str() != "anchor");
    let (k, _, sub) = err_kind(Deck::from_entries(&m));
    assert_eq!((k, sub.as_str()), (ErrorKind::MissingKey, "anchor"));

    let bad = vec![
        s("anchor", card_field(1, 1, 1)),
        s("cards", Field::List(vec![card_field(1, 1, 1), Field::Null])),
    ];
    assert_eq!(err_kind(Deck::from_entries(&bad)).0, ErrorKind::NotA(FieldKind::Struct));

    let not_list = vec![s("anchor", card_field(1, 1, 1)), s("cards", Field::Uint(0))];
    let (k, _, sub) = err_kind(Deck::from_entries(&not_list));
    assert_eq!((k, sub.as_str()), (ErrorKind::WrongType(FieldKind::List), "cards"));
}

#[test]
fn sequence_sampling() {
    assert_eq!(unpack_sequence("xx3aaaaaaa2yy"), vec![3, 2]);
    assert_eq!(unpack_sequence(""), Vec::<u8>::new());
    assert_eq!(unpack_sequence("ab"), Vec::<u8>::new());
    assert_eq!(unpack_sequence("ab7"), vec![7]);
    // a sampled character that is not a digit is dropped
    assert_eq!(unpack_sequence("xxqaaaaaaa5"), vec![5]);
    // characters, not bytes, are counted
    assert_eq!(unpack_sequence("éé4ééééééé9"), vec![4, 9]);
}

#[test]
fn event_decodes_with_matching_count() {
    let e = RawEvent::from_entries(&event_entries("e1", "xx3aaaaaaa2yy", 2, 0)).unwrap();
    assert_eq!(e.id, "e1");
    assert_eq!(e.npc_guid, "g1");
    assert_eq!(e.sequence_count, 2);
    assert_eq!(e.strike_count, 4);
    assert_eq!(e.sequence_lengths, vec![3, 2]);
    assert!(e.deck.is_none());
}

#[test]
fn event_count_mismatch_names_event() {
    let (k, c, _) = err_kind(RawEvent::from_entries(&event_entries("e7", "xx3aaaaaaa2yy", 3, 0)));
    assert_eq!(k, ErrorKind::SequenceMismatch);
    assert_eq!(c, Some("e7".to_string()));
    let (k, _, _) = err_kind(RawEvent::from_entries(&event_entries("e7", "xx3aaaaaaa2yy", 1, 0)));
    assert_eq!(k, ErrorKind::SequenceMismatch);
}

#[test]
fn event_override_zero_ignores_deck() {
    let mut m = event_entries("e1", "xx3", 1, 0);
    m.push(s("deck", Field::Struct(deck_entries(2))));
    let e = RawEvent::from_entries(&m).unwrap();
    assert!(e.deck.is_none());
}

#[test]
fn event_override_one_reads_deck() {
    let mut m = event_entries("e1", "xx3", 1, 1);
    m.push(s("deck", Field::Struct(deck_entries(2))));
    let e = RawEvent::from_entries(&m).unwrap();
    assert_eq!(e.deck.unwrap().cards.len(), 2);
}

#[test]
fn event_override_one_without_deck_fails() {
    let (k, c, sub) = err_kind(RawEvent::from_entries(&event_entries("e1", "xx3", 1, 1)));
    assert_eq!(k, ErrorKind::MissingKey);
    assert_eq!(c, Some("e1".to_string()));
    assert_eq!(sub, "deck");
}

#[test]
fn event_strike_count_out_of_range() {
    let mut m = event_entries("e1", "xx3", 1, 0);
    m[3] = s("strikeCount", Field::Uint(300));
    let (k, c, sub) = err_kind(RawEvent::from_entries(&m));
    assert_eq!(k, ErrorKind::OutOfRange);
    assert_eq!(c, Some("e1".to_string()));
    assert_eq!(sub, "strikeCount");
}

#[test]
fn event_missing_guid_and_wrong_types() {
    let mut m = event_entries("e1", "xx3", 1, 0);
    m[5] = s("npc", Field::Struct(vec![]));
    let (k, c, sub) = err_kind(RawEvent::from_entries(&m));
    assert_eq!((k, c, sub.as_str()), (ErrorKind::MissingKey, Some("e1".to_string()), "guid"));

    let mut m = event_entries("e1", "xx3", 1, 0);
    m[0] = s("id", Field::Uint(1));
    let (k, c, sub) = err_kind(RawEvent::from_entries(&m));
    assert_eq!((k, c, sub.as_str()), (ErrorKind::WrongType(FieldKind::Str), None, "id"));
}

pub fn npc_entries(id: &str) -> Vec<(String, Field)> {
    let mut m = vec![
        s("id", text(id)),
        s("handSize", Field::Uint(261)),
        s("prefersDoubles", Field::Uint(2)),
        s("mad", Field::Uint(3)),
    ];
    for i in 0..6 {
        m.push(s(&format!("deck{}", i), Field::Struct(deck_entries(i))));
    }
    m
}

#[test]
fn npc_decodes() {
    let n = NPC::from_entries(&npc_entries("alice")).unwrap();
    assert_eq!(n.id, "alice");
    assert_eq!(n.hand_size, 5);
    assert!(n.prefers_doubles);
    assert_eq!(n.mad_threshold, 3);
    for i in 0..6 {
        assert_eq!(n.decks[i].cards.len(), i);
    }
}

#[test]
fn npc_missing_deck_slot() {
    let mut m = npc_entries("alice");
    m.retain(|(k, _)| k.as_str() != "deck4");
    let (k, _, sub) = err_kind(NPC::from_entries(&m));
    assert_eq!((k, sub.as_str()), (ErrorKind::MissingKey, "deck4"));
}

#[test]
fn npc_equality_by_id() {
    let a = NPC::from_entries(&npc_entries("alice")).unwrap();
    let mut m = npc_entries("alice");
    m[3] = s("mad", Field::Uint(9));
    let b = NPC::from_entries(&m).unwrap();
    let c = NPC::from_entries(&npc_entries("bob")).unwrap();
    assert!(a == b);
    assert!(a != c);
}

#[test]
fn asset_documents() {
    let npc_doc = Field::Struct(vec![s("MonoBehaviour", Field::Struct(npc_entries("alice")))]);
    assert!(NPC::is_npc(&npc_entries("alice")));
    assert_eq!(NPC::load_asset(&npc_doc).unwrap().unwrap().id, "alice");

    let other = Field::Struct(vec![s("MonoBehaviour", Field::Struct(vec![s("id", text("x"))]))]);
    assert!(NPC::load_asset(&other).unwrap().is_none());

    assert_eq!(err_kind(NPC::load_asset(&Field::Null)).0, ErrorKind::NotA(FieldKind::Struct));
    let no_mb = Field::Struct(vec![]);
    let (k, _, sub) = err_kind(NPC::load_asset(&no_mb));
    assert_eq!((k, sub.as_str()), (ErrorKind::MissingKey, "MonoBehaviour"));
}
