use npc_events::data::{Card, Connector, Deck, Effect, NPC};
use npc_events::interface::{events_of_document, meta_guid, App, Command, DeckSubCommand, NPCSubCommand};
use npc_events::text::{decimal, text_less, write_vec_sep};
use npc_events::yaml::{ErrorKind, Field, YamlError};

fn s(k: &str, v: Field) -> (String, Field) {
    (k.to_string(), v)
}

fn text(t: &str) -> Field {
    Field::Str(t.to_string())
}

fn card_field(input: u64, output: u64, effect: u64) -> Field {
    Field::Struct(vec![
        s("input", Field::Uint(input)),
        s("output", Field::Uint(output)),
        s("effect", Field::Uint(effect)),
    ])
}

fn deck_field() -> Field {
    Field::Struct(vec![s("anchor", card_field(1, 4, 0)), s("cards", Field::List(vec![card_field(2, 8, 9)]))])
}

fn npc_doc(id: &str) -> Field {
    let mut m = vec![
        s("id", text(id)),
        s("handSize", Field::Uint(5)),
        s("prefersDoubles", Field::Uint(0)),
        s("mad", Field::Uint(3)),
    ];
    for i in 0..6 {
        m.push(s(&format!("deck{}", i), deck_field()));
    }
    Field::Struct(vec![s("MonoBehaviour", Field::Struct(m))])
}

fn meta_doc(guid: &str) -> Field {
    Field::Struct(vec![s("fileFormatVersion", Field::Uint(2)), s("guid", text(guid))])
}

fn event_record(id: &str, sequence: &str, count: u64, guid: &str) -> Field {
    Field::Struct(vec![
        s("id", text(id)),
        s("sequence", text(sequence)),
        s("sequenceCount", Field::Uint(count)),
        s("strikeCount", Field::Uint(1)),
        s("overrideDeck", Field::Uint(0)),
        s("npc", Field::Struct(vec![s("fileID", Field::Int(-1)), s("guid", text(guid))])),
    ])
}

fn events_doc(events: Vec<Field>) -> Field {
    Field::Struct(vec![s("MonoBehaviour", Field::Struct(vec![s("data", Field::List(events))]))])
}

fn load_npc(app: &mut App, meta: &Field, asset: &Field) -> Result<(), YamlError> {
    let guid = meta_guid(meta)?;
    if let Some(npc) = NPC::load_asset(asset)? {
        app.add_npc(guid, npc)?;
    }
    Ok(())
}

#[test]
fn end_to_end_single_event() {
    let mut app = App::new();
    load_npc(&mut app, &meta_doc("abc123"), &npc_doc("alice")).unwrap();
    let doc = events_doc(vec![event_record("e1", "xx3aaaaaaa2yy", 2, "abc123")]);
    app.parse_event_data(&doc).unwrap();
    assert_eq!(app.event_ids(), vec!["e1".to_string()]);
    let ev = app.event(&"e1".to_string()).unwrap();
    assert_eq!(ev.npc_id, "alice");
    assert_eq!(ev.event.sequence_lengths, vec![3, 2]);
    assert!(ev.event.deck.is_none());
    assert_eq!(app.events_of_npc(&"alice".to_string()).unwrap(), &vec!["e1".to_string()]);
}

#[test]
fn duplicate_guid_fails() {
    let mut app = App::new();
    load_npc(&mut app, &meta_doc("g"), &npc_doc("alice")).unwrap();
    let e = load_npc(&mut app, &meta_doc("g"), &npc_doc("bob")).unwrap_err();
    assert_eq!(e.kind, ErrorKind::DuplicateGuid);
    assert_eq!(e.subject, "g");
    assert_eq!(app.npc_ids(), vec!["alice".to_string()]);
}

#[test]
fn duplicate_npc_id_fails() {
    let mut app = App::new();
    load_npc(&mut app, &meta_doc("g1"), &npc_doc("alice")).unwrap();
    let e = load_npc(&mut app, &meta_doc("g2"), &npc_doc("alice")).unwrap_err();
    assert_eq!(e.kind, ErrorKind::DuplicateNpcId);
    assert_eq!(e.subject, "alice");
}

#[test]
fn non_npc_asset_is_skipped() {
    let mut app = App::new();
    let other = Field::Struct(vec![s("MonoBehaviour", Field::Struct(vec![s("id", text("x"))]))]);
    load_npc(&mut app, &meta_doc("g1"), &other).unwrap();
    assert!(app.npc_ids().is_empty());
}

#[test]
fn unknown_guid_fails_whole_load() {
    let mut app = App::new();
    load_npc(&mut app, &meta_doc("g1"), &npc_doc("alice")).unwrap();
    let doc = events_doc(vec![
        event_record("e1", "xx1", 1, "g1"),
        event_record("e2", "xx1", 1, "nope"),
    ]);
    let e = app.parse_event_data(&doc).unwrap_err();
    assert_eq!(e.kind, ErrorKind::UnknownGuid);
    assert_eq!(e.context, Some("e2".to_string()));
    assert_eq!(e.subject, "nope");
    assert!(app.event_ids().is_empty());
    assert!(app.events_of_npc(&"alice".to_string()).unwrap().is_empty());
    assert_eq!(e.message(), "Unknown NPC Guid `nope` in event `e2`");
}

#[test]
fn events_are_keyed_by_id_and_indexed() {
    let mut app = App::new();
    load_npc(&mut app, &meta_doc("g1"), &npc_doc("alice")).unwrap();
    load_npc(&mut app, &meta_doc("g2"), &npc_doc("bob")).unwrap();
    let doc = events_doc(vec![
        event_record("e1", "xx1", 1, "g1"),
        event_record("e2", "xx1", 1, "g2"),
        event_record("e1", "xx1aaaaaaa2", 2, "g1"),
    ]);
    app.parse_event_data(&doc).unwrap();
    assert_eq!(app.event_ids(), vec!["e1".to_string(), "e2".to_string()]);
    assert_eq!(app.event(&"e1".to_string()).unwrap().event.sequence_lengths, vec![1, 2]);
    assert_eq!(app.events_of_npc(&"alice".to_string()).unwrap(), &vec!["e1".to_string()]);
    assert_eq!(app.events_of_npc(&"bob".to_string()).unwrap(), &vec!["e2".to_string()]);
    assert!(app.events_of_npc(&"carol".to_string()).is_none());
    assert_eq!(app.npc_by_id(&"bob".to_string()).unwrap().id, "bob");
    assert!(app.npc_by_id(&"carol".to_string()).is_none());
}

#[test]
fn standalone_event_document() {
    let doc = events_doc(vec![event_record("e1", "xx3", 1, "g"), event_record("e2", "xx", 0, "h")]);
    let evs = events_of_document(&doc).unwrap();
    assert_eq!(evs.len(), 2);
    assert_eq!(evs[1].id, "e2");
    let bad = events_doc(vec![event_record("e1", "xx3", 1, "g"), Field::Bool(true)]);
    assert!(events_of_document(&bad).is_err());
    let e = events_of_document(&Field::Struct(vec![])).unwrap_err();
    assert_eq!(e.kind, ErrorKind::MissingKey);
}

#[test]
fn meta_guid_errors() {
    assert_eq!(meta_guid(&meta_doc("x")).unwrap(), "x");
    let e = meta_guid(&Field::Struct(vec![s("guid", Field::Uint(3))])).unwrap_err();
    assert_eq!(e.message(), "Field entry `guid` is not of type Str.");
}

#[test]
fn separator_join_and_decimals() {
    let v = vec!["a".to_string(), "b".to_string(), "c".to_string()];
    assert_eq!(write_vec_sep(&v, ", "), "a, b, c");
    assert_eq!(write_vec_sep(&vec![], ", "), "");
    assert_eq!(write_vec_sep(&vec!["x".to_string()], "--"), "x");
    assert_eq!(decimal(0), "0");
    assert_eq!(decimal(255), "255");
    assert_eq!(decimal(1000), "1000");
    assert_eq!(decimal(u64::MAX), "18446744073709551615");
}

#[test]
fn card_and_deck_text() {
    let card = Card { input: Connector::from_bits(0x5), output: Connector::from_bits(0x30), effect: Effect::Chain };
    assert_eq!(card.to_text(), "○□ | 🐾@ + Chatter");
    let plain = Card { input: Connector::from_bits(0x2), output: Connector::from_bits(0x8), effect: Effect::NoEffect };
    assert_eq!(plain.to_text(), "△ | ◊");
    let deck = Deck { anchor: plain, cards: vec![card] };
    assert_eq!(deck.to_text(), "\t\tanchor: △ | ◊\n\t\t○□ | 🐾@ + Chatter");
    assert_eq!(Connector::from_bits(0x3F).to_text(), "○△□◊🐾@");
    assert_eq!(Connector::from_bits(0x11).to_text(), "○@");
    assert_eq!(Connector::from_bits(0).to_text(), "");
    assert_eq!(Effect::Listen.to_text(), "Listen");
    assert_eq!(Effect::NoEffect.to_text(), "");
}

#[test]
fn event_text_rendering() {
    let mut app = App::new();
    load_npc(&mut app, &meta_doc("g1"), &npc_doc("alice")).unwrap();
    app.parse_event_data(&events_doc(vec![event_record("e1", "xx3aaaaaaa2", 2, "g1")])).unwrap();
    let ev = app.event(&"e1".to_string()).unwrap();
    assert_eq!(
        ev.to_text(),
        "e1:\n\tNPC: alice\n\tNum Concord: 2\n\tNum Discord: 1\n\tSequence Lengths: 3, 2\n\tUses default deck for this cycle; see NPC data.\n"
    );
    assert_eq!(
        ev.event.to_text(),
        "e1:\n\tnpc_guid: g1\n\tsequence_count: 2\n\tstrike_count: 1\n\tsequence_lengths: 3, 2\n\tdeck:\n\t\tDefault for cycle; see character with npc guid `g1`\n"
    );
}

#[test]
fn npc_text_rendering() {
    let npc = NPC::load_asset(&npc_doc("alice")).unwrap().unwrap();
    assert_eq!(
        npc.print_details(),
        "NPC - alice:\n\tHand Size: 5\n\tPrefers Doubles: false\n\tDiscordances to become mad: 3\n"
    );
    let deck = "\t\tanchor: ○ | □\n\t\t△ | ◊ + Listen";
    assert_eq!(npc.print_deck(2), format!("\tDeck for cycle 2:\n{}\n", deck));
    assert_eq!(npc.print_fallback_deck(), format!("\tFallback deck (unexpected cycle value):\n{}\n", deck));
    let all = npc.print_all_decks();
    assert!(all.starts_with("\tDeck for cycle 1:\n"));
    assert!(all.ends_with(&npc.print_fallback_deck()));
    assert_eq!(all.matches("\tDeck for cycle ").count(), 5);
}

#[test]
fn error_messages() {
    assert_eq!(YamlError::new("Root isn't a map").message(), "Root isn't a map");
    let e = NPC::load_asset(&Field::Null).unwrap_err();
    assert_eq!(e.message(), "Field is not a Struct");
    let doc = events_doc(vec![event_record("e5", "xx3", 2, "g")]);
    let e = events_of_document(&doc).unwrap_err();
    assert_eq!(e.message(), "event e5: Failed to parse `sequence` field.");
    let doc = events_doc(vec![Field::Struct(vec![s("id", text("e6")), s("sequence", text(""))])]);
    let e = events_of_document(&doc).unwrap_err();
    assert_eq!(e.message(), "event e6: Field didn't contain `sequenceCount` key.");
}

#[test]
fn events_and_ids_come_in_id_order() {
    let mut app = App::new();
    load_npc(&mut app, &meta_doc("g2"), &npc_doc("bob")).unwrap();
    load_npc(&mut app, &meta_doc("g1"), &npc_doc("alice")).unwrap();
    assert_eq!(app.npc_ids(), vec!["alice".to_string(), "bob".to_string()]);
    let doc = events_doc(vec![
        event_record("e3", "xx1", 1, "g1"),
        event_record("e10", "xx1", 1, "g2"),
        event_record("e1", "xx1", 1, "g1"),
        event_record("e2", "xx1", 1, "g1"),
    ]);
    app.parse_event_data(&doc).unwrap();
    assert_eq!(app.event_ids(), vec!["e1", "e10", "e2", "e3"]);
    assert_eq!(app.events_of_npc(&"alice".to_string()).unwrap(), &vec!["e1", "e2", "e3"]);
    assert_eq!(app.events_of_npc(&"bob".to_string()).unwrap(), &vec!["e10"]);
}

#[test]
fn text_order() {
    assert!(text_less("a", "b"));
    assert!(text_less("ab", "abc"));
    assert!(!text_less("abc", "ab"));
    assert!(!text_less("same", "same"));
    assert!(text_less("", "x"));
    assert!(text_less("Z", "a"));
    assert!(text_less("e10", "e2"));
}

#[test]
fn menu_labels_parse_back() {
    for c in DeckSubCommand::all() {
        assert_eq!(DeckSubCommand::from_str(&c.to_text()), Some(c));
    }
    for c in Command::all() {
        assert_eq!(Command::from_str(&c.to_text()), Some(c));
    }
    for c in NPCSubCommand::all() {
        assert_eq!(NPCSubCommand::from_str(&c.to_text()), Some(c));
    }
    assert_eq!(DeckSubCommand::from_str("ALL"), Some(DeckSubCommand::AllDecks));
    assert_eq!(DeckSubCommand::from_str("Fallback"), Some(DeckSubCommand::FallbackDeck));
    assert_eq!(Command::from_str("View NPC"), Some(Command::ViewNPC));
    assert_eq!(NPCSubCommand::from_str("BACK"), Some(NPCSubCommand::Back));
    assert_eq!(DeckSubCommand::from_str("6"), None);
    assert_eq!(Command::from_str("exit"), None);
    assert_eq!(NPCSubCommand::from_str(""), None);
    assert_eq!(Command::ViewEvent.to_text(), "view event");
    assert_eq!(DeckSubCommand::AllDecks.to_text(), "all");
}

#[test]
fn deck_choices() {
    assert_eq!(DeckSubCommand::Deck3.cycle(), Some(3));
    assert_eq!(DeckSubCommand::AllDecks.cycle(), None);
    assert_eq!(DeckSubCommand::FallbackDeck.cycle(), None);
    let npc = NPC::load_asset(&npc_doc("alice")).unwrap().unwrap();
    assert_eq!(DeckSubCommand::Deck4.run(&npc), npc.print_deck(4));
    assert_eq!(DeckSubCommand::AllDecks.run(&npc), npc.print_all_decks());
    assert_eq!(DeckSubCommand::FallbackDeck.run(&npc), npc.print_fallback_deck());
}

#[test]
fn npc_order_by_id() {
    let a = NPC::load_asset(&npc_doc("alice")).unwrap().unwrap();
    let b = NPC::load_asset(&npc_doc("bob")).unwrap().unwrap();
    assert!(a < b);
    assert_eq!(a.partial_cmp(&a), Some(std::cmp::Ordering::Equal));
    assert_eq!(b.partial_cmp(&a), Some(std::cmp::Ordering::Greater));
}

#[test]
fn second_load_replaces_events_and_index() {
    let mut app = App::new();
    load_npc(&mut app, &meta_doc("g1"), &npc_doc("alice")).unwrap();
    load_npc(&mut app, &meta_doc("g2"), &npc_doc("bob")).unwrap();
    app.parse_event_data(&events_doc(vec![
        event_record("e1", "xx1", 1, "g1"),
        event_record("e2", "xx1", 1, "g2"),
    ]))
    .unwrap();
    app.parse_event_data(&events_doc(vec![event_record("e3", "xx1", 1, "g1")])).unwrap();
    assert_eq!(app.event_ids(), vec!["e3"]);
    assert_eq!(app.events_of_npc(&"alice".to_string()).unwrap(), &vec!["e3"]);
    assert!(app.events_of_npc(&"bob".to_string()).unwrap().is_empty());
}

#[test]
fn raw_events_order_by_id() {
    let evs = events_of_document(&events_doc(vec![
        event_record("b", "xx1", 1, "g"),
        event_record("a", "xx2", 1, "h"),
        event_record("b", "xx3", 1, "k"),
    ]))
    .unwrap();
    assert!(evs[1] < evs[0]);
    assert_eq!(evs[0].partial_cmp(&evs[2]), Some(std::cmp::Ordering::Equal));
    assert_eq!(evs[0].partial_cmp(&evs[1]), Some(std::cmp::Ordering::Greater));
}
