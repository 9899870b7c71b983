use vstd::prelude::*;

use crate::yaml::{
    lookup_push, get_field, get_list, get_str, get_struct, get_uint, lookup, res_view, spec_get_list,
    spec_get_str, spec_get_struct, spec_get_uint, ErrView, ErrorKind, Field, FieldKind,
    YamlError,
};

use crate::text::{
    decimal, decimal_text, decimals, join, numbers_text, text_less, text_lt, texts_view, write_vec_sep,
};

verus! {

/// The narrative action a card triggers when played.
#[derive(Debug, Clone, Copy, PartialEq, Eq, Structural)]
pub enum Effect {
    NoEffect,
    Chain,
    Inherit,
    Duplicate,
    Insert,
    Collapse,
    Redraw,
    ViewHand,
    Choose,
    Listen,
}

impl View for Effect {
    type V = Effect;

    open spec fn view(&self) -> Effect {
        *self
    }
}

/// The effect that a code stands for; unknown codes are no effect.
pub open spec fn effect_of(code: u64) -> Effect {
    if code == 1 {
        Effect::Chain
    } else if code == 2 {
        Effect::Inherit
    } else if code == 3 {
        Effect::Duplicate
    } else if code == 4 {
        Effect::Insert
    } else if code == 5 {
        Effect::Collapse
    } else if code == 6 {
        Effect::Redraw
    } else if code == 7 {
        Effect::ViewHand
    } else if code == 8 {
        Effect::Choose
    } else if code == 9 {
        Effect::Listen
    } else {
        Effect::NoEffect
    }
}

/// Decoding a value directly as an effect.
pub open spec fn spec_effect(f: Field) -> Result<Effect, ErrView> {
    match f {
        Field::Uint(n) => Ok(effect_of(n)),
        _ => Err((ErrorKind::NotA(FieldKind::Uint), None, seq![])),
    }
}

impl Effect {
    /// The effect with the given code: codes 1 to 9 name the nine actions in
    /// declaration order, every other code is [`Effect::NoEffect`].
    pub fn from_code(code: u64) -> (r: Effect)
        ensures
            r == effect_of(code),
            code == 0 || code >= 10 ==> r == Effect::NoEffect,
            1 <= code <= 9 ==> r != Effect::NoEffect,
    {
        match code {
            1 => Effect::Chain,
            2 => Effect::Inherit,
            3 => Effect::Duplicate,
            4 => Effect::Insert,
            5 => Effect::Collapse,
            6 => Effect::Redraw,
            7 => Effect::ViewHand,
            8 => Effect::Choose,
            9 => Effect::Listen,
            _ => Effect::NoEffect,
        }
    }

    /// Decodes an unsigned-integer value as an effect.
    pub fn from_field(value: &Field) -> (r: Result<Effect, YamlError>)
        ensures
            res_view(r) == spec_effect(*value),
    {
        match value {
            Field::Uint(n) => Ok(Effect::from_code(*n)),
            _ => Err(YamlError::not_a(FieldKind::Uint)),
        }
    }
}

/// Distinct codes name distinct effects.
pub proof fn effect_codes_distinct(a: u64, b: u64)
    requires
        1 <= a <= 9,
        1 <= b <= 9,
        a != b,
    ensures
        effect_of(a) != effect_of(b),
{
}

/// One shape tag of a connector.
#[derive(Debug, Clone, Copy, PartialEq, Eq, Structural, PartialOrd, Ord)]
pub enum ConnectType {
    Circle,
    Triangle,
    Square,
    Diamond,
    Dog,
    Spiral,
}

/// The bit that stands for a tag in a packed connector.
pub open spec fn tag_bit(c: ConnectType) -> u64 {
    match c {
        ConnectType::Circle => 0x1,
        ConnectType::Triangle => 0x2,
        ConnectType::Square => 0x4,
        ConnectType::Diamond => 0x8,
        ConnectType::Spiral => 0x10,
        ConnectType::Dog => 0x20,
    }
}

/// The position of a tag in the canonical order (declaration order).
pub open spec fn tag_rank(c: ConnectType) -> nat {
    match c {
        ConnectType::Circle => 0,
        ConnectType::Triangle => 1,
        ConnectType::Square => 2,
        ConnectType::Diamond => 3,
        ConnectType::Dog => 4,
        ConnectType::Spiral => 5,
    }
}

pub open spec fn tag_if(n: u64, c: ConnectType) -> Seq<ConnectType> {
    if n & tag_bit(c) != 0 {
        seq![c]
    } else {
        seq![]
    }
}

/// The tags set in a packed connector, in canonical order; bits outside the
/// six known ones are ignored.
pub open spec fn connector_of(n: u64) -> Seq<ConnectType> {
    tag_if(n, ConnectType::Circle) + tag_if(n, ConnectType::Triangle) + tag_if(n, ConnectType::Square)
        + tag_if(n, ConnectType::Diamond) + tag_if(n, ConnectType::Dog) + tag_if(
        n,
        ConnectType::Spiral,
    )
}

/// The packed form of a set of tags: the OR of the bits of the tags present.
pub open spec fn mask_of(s: Seq<ConnectType>) -> u64 {
    (if s.contains(ConnectType::Circle) { 0x1u64 } else { 0u64 }) | (if s.contains(
        ConnectType::Triangle,
    ) {
        0x2u64
    } else {
        0u64
    }) | (if s.contains(ConnectType::Square) { 0x4u64 } else { 0u64 }) | (if s.contains(
        ConnectType::Diamond,
    ) {
        0x8u64
    } else {
        0u64
    }) | (if s.contains(ConnectType::Spiral) { 0x10u64 } else { 0u64 }) | (if s.contains(
        ConnectType::Dog,
    ) {
        0x20u64
    } else {
        0u64
    })
}

/// Tags in strictly increasing canonical order (so without duplicates).
pub open spec fn canonical(s: Seq<ConnectType>) -> bool {
    forall|i: int, j: int| 0 <= i < j < s.len() ==> tag_rank(#[trigger] s[i]) < tag_rank(#[trigger] s[j])
}

/// A set of shape tags, always held in canonical order.
#[derive(Debug, PartialEq, Eq)]
pub struct Connector(Vec<ConnectType>);

impl Connector {
    /// The tags are always in canonical order.
    #[verifier::type_invariant]
    closed spec fn inv(&self) -> bool {
        canonical(self.0@)
    }
}

impl View for Connector {
    type V = Seq<ConnectType>;

    closed spec fn view(&self) -> Seq<ConnectType> {
        self.0@
    }
}

/// Decoding a value directly as a connector.
pub open spec fn spec_connector(f: Field) -> Result<Seq<ConnectType>, ErrView> {
    match f {
        Field::Uint(n) => Ok(connector_of(n)),
        _ => Err((ErrorKind::NotA(FieldKind::Uint), None, seq![])),
    }
}

proof fn contains_concat(x: Seq<ConnectType>, y: Seq<ConnectType>, c: ConnectType)
    ensures
        (x + y).contains(c) <==> x.contains(c) || y.contains(c),
{
    if x.contains(c) {
        let i = choose|i: int| 0 <= i < x.len() && x[i] == c;
        assert((x + y)[i] == c);
    }
    if y.contains(c) {
        let i = choose|i: int| 0 <= i < y.len() && y[i] == c;
        assert((x + y)[x.len() + i] == c);
    }
    if (x + y).contains(c) {
        let i = choose|i: int| 0 <= i < (x + y).len() && (x + y)[i] == c;
        if i < x.len() {
            assert(x[i] == c);
        } else {
            assert(y[i - x.len()] == c);
        }
    }
}

proof fn tag_if_contains(n: u64, d: ConnectType, c: ConnectType)
    ensures
        tag_if(n, d).contains(c) <==> (d == c && n & tag_bit(d) != 0),
{
    if n & tag_bit(d) != 0 {
        assert(tag_if(n, d)[0] == d);
    }
}

/// A tag belongs to the decoded connector exactly when its bit is set.
proof fn tag_membership(n: u64, c: ConnectType)
    ensures
        connector_of(n).contains(c) <==> n & tag_bit(c) != 0,
{
    let a = tag_if(n, ConnectType::Circle);
    let b = tag_if(n, ConnectType::Triangle);
    let s2 = tag_if(n, ConnectType::Square);
    let d = tag_if(n, ConnectType::Diamond);
    let g = tag_if(n, ConnectType::Dog);
    let p = tag_if(n, ConnectType::Spiral);
    contains_concat(a, b, c);
    contains_concat(a + b, s2, c);
    contains_concat(a + b + s2, d, c);
    contains_concat(a + b + s2 + d, g, c);
    contains_concat(a + b + s2 + d + g, p, c);
    tag_if_contains(n, ConnectType::Circle, c);
    tag_if_contains(n, ConnectType::Triangle, c);
    tag_if_contains(n, ConnectType::Square, c);
    tag_if_contains(n, ConnectType::Diamond, c);
    tag_if_contains(n, ConnectType::Dog, c);
    tag_if_contains(n, ConnectType::Spiral, c);
}

/// Decoding a packed connector and packing it again gives back the six
/// known bits of the input: `mask_of(connector_of(n)) == n & 0x3F`.
pub proof fn connector_mask_round_trip(n: u64)
    ensures
        mask_of(connector_of(n)) == n & 0x3F,
{
    tag_membership(n, ConnectType::Circle);
    tag_membership(n, ConnectType::Triangle);
    tag_membership(n, ConnectType::Square);
    tag_membership(n, ConnectType::Diamond);
    tag_membership(n, ConnectType::Dog);
    tag_membership(n, ConnectType::Spiral);
    assert(((if n & 0x1 != 0 { 0x1u64 } else { 0u64 }) | (if n & 0x2 != 0 { 0x2u64 } else { 0u64 }) | (if n & 0x4 != 0 { 0x4u64 } else { 0u64 }) | (if n & 0x8 != 0 { 0x8u64 } else { 0u64 }) | (if n & 0x10 != 0 { 0x10u64 } else { 0u64 }) | (if n & 0x20 != 0 { 0x20u64 } else { 0u64 })) == n & 0x3F) by (bit_vector);
}

/// The decoded tags are in canonical order.
proof fn connector_canonical(n: u64)
    ensures
        canonical(connector_of(n)),
{
    let s = connector_of(n);
    assert forall|i: int, j: int| 0 <= i < j < s.len() implies tag_rank(#[trigger] s[i]) < tag_rank(#[trigger] s[j]) by {
        let a = tag_if(n, ConnectType::Circle);
        let b = tag_if(n, ConnectType::Triangle);
        let s2 = tag_if(n, ConnectType::Square);
        let d = tag_if(n, ConnectType::Diamond);
        let g = tag_if(n, ConnectType::Dog);
        let p = tag_if(n, ConnectType::Spiral);
        let l0 = a.len();
        let l1 = l0 + b.len();
        let l2 = l1 + s2.len();
        let l3 = l2 + d.len();
        let l4 = l3 + g.len();
        assert(i < l0 ==> s[i] == ConnectType::Circle);
        assert(l0 <= i < l1 ==> s[i] == ConnectType::Triangle);
        assert(l1 <= i < l2 ==> s[i] == ConnectType::Square);
        assert(l2 <= i < l3 ==> s[i] == ConnectType::Diamond);
        assert(l3 <= i < l4 ==> s[i] == ConnectType::Dog);
        assert(l4 <= i ==> s[i] == ConnectType::Spiral);
        assert(j < l0 ==> s[j] == ConnectType::Circle);
        assert(l0 <= j < l1 ==> s[j] == ConnectType::Triangle);
        assert(l1 <= j < l2 ==> s[j] == ConnectType::Square);
        assert(l2 <= j < l3 ==> s[j] == ConnectType::Diamond);
        assert(l3 <= j < l4 ==> s[j] == ConnectType::Dog);
        assert(l4 <= j ==> s[j] == ConnectType::Spiral);
    }
}

fn bit_of(c: ConnectType) -> (r: u64)
    ensures
        r == tag_bit(c),
{
    match c {
        ConnectType::Circle => 0x1,
        ConnectType::Triangle => 0x2,
        ConnectType::Square => 0x4,
        ConnectType::Diamond => 0x8,
        ConnectType::Spiral => 0x10,
        ConnectType::Dog => 0x20,
    }
}

fn push_tag(v: &mut Vec<ConnectType>, n: u64, c: ConnectType)
    ensures
        final(v)@ == old(v)@ + tag_if(n, c),
{
    if n & bit_of(c) != 0 {
        v.push(c);
        assert(v@ =~= old(v)@ + tag_if(n, c));
    } else {
        assert(v@ =~= old(v)@ + tag_if(n, c));
    }
}

impl Connector {
    /// Decodes a packed connector: each of the bits 0x1, 0x2, 0x4, 0x8, 0x10
    /// and 0x20 adds Circle, Triangle, Square, Diamond, Spiral and Dog.
    pub fn from_bits(n: u64) -> (r: Connector)
        ensures
            r@ == connector_of(n),
            canonical(r@),
            forall|c: ConnectType| #[trigger] r@.contains(c) <==> n & tag_bit(c) != 0,
            mask_of(r@) == n & 0x3F,
    {
        proof {
            connector_canonical(n);
            connector_mask_round_trip(n);
            assert forall|c: ConnectType| #[trigger] connector_of(n).contains(c) <==> n & tag_bit(c) != 0 by {
                tag_membership(n, c);
            }
        }
        let mut v: Vec<ConnectType> = Vec::new();
        push_tag(&mut v, n, ConnectType::Circle);
        push_tag(&mut v, n, ConnectType::Triangle);
        push_tag(&mut v, n, ConnectType::Square);
        push_tag(&mut v, n, ConnectType::Diamond);
        push_tag(&mut v, n, ConnectType::Dog);
        push_tag(&mut v, n, ConnectType::Spiral);
        assert(v@ =~= connector_of(n));
        Connector(v)
    }

    /// Decodes an unsigned-integer value as a connector.
    pub fn from_field(value: &Field) -> (r: Result<Connector, YamlError>)
        ensures
            res_view(r) == spec_connector(*value),
    {
        match value {
            Field::Uint(n) => Ok(Connector::from_bits(*n)),
            _ => Err(YamlError::not_a(FieldKind::Uint)),
        }
    }

    /// The tags of the connector, in canonical order.
    pub fn tags(&self) -> (r: &Vec<ConnectType>)
        ensures
            r@ == self@,
            canonical(r@),
    {
        proof {
            use_type_invariant(self);
        }
        &self.0
    }

    /// Whether the tag `c` belongs to the connector.
    pub fn has(&self, c: ConnectType) -> (r: bool)
        ensures
            r == self@.contains(c),
    {
        let mut i: usize = 0;
        while i < self.0.len()
            invariant
                0 <= i <= self.0@.len(),
                forall|k: int| 0 <= k < i ==> self.0@[k] != c,
            decreases self.0@.len() - i,
        {
            if self.0[i] == c {
                return true;
            }
            i = i + 1;
        }
        false
    }

    /// Packs the connector again: the OR of the bits of its tags.
    pub fn bits(&self) -> (r: u64)
        ensures
            r == mask_of(self@),
    {
        (if self.has(ConnectType::Circle) { 0x1u64 } else { 0u64 }) | (if self.has(ConnectType::Triangle) { 0x2u64 } else { 0u64 })
            | (if self.has(ConnectType::Square) { 0x4u64 } else { 0u64 }) | (if self.has(ConnectType::Diamond) { 0x8u64 } else { 0u64 })
            | (if self.has(ConnectType::Spiral) { 0x10u64 } else { 0u64 }) | (if self.has(ConnectType::Dog) { 0x20u64 } else { 0u64 })
    }
}


/// The mathematical content of a [`Card`].
pub ghost struct CardView {
    pub input: Seq<ConnectType>,
    pub output: Seq<ConnectType>,
    pub effect: Effect,
}

/// A card: the shapes it accepts, the shapes it offers, and its effect.
#[derive(Debug, PartialEq, Eq)]
pub struct Card {
    pub input: Connector,
    pub output: Connector,
    pub effect: Effect,
}

impl View for Card {
    type V = CardView;

    open spec fn view(&self) -> CardView {
        CardView { input: self.input@, output: self.output@, effect: self.effect }
    }
}

/// Decoding the entries of a struct node as a card: `input`, `output` and
/// `effect` are read in that order and the first failure is reported.
pub open spec fn spec_card_entries(m: Seq<(String, Field)>) -> Result<CardView, ErrView> {
    match lookup(m, "input"@) {
        None => Err((ErrorKind::MissingKey, None, "input"@)),
        Some(i) => match spec_connector(i) {
            Err(e) => Err(e),
            Ok(input) => match lookup(m, "output"@) {
                None => Err((ErrorKind::MissingKey, None, "output"@)),
                Some(o) => match spec_connector(o) {
                    Err(e) => Err(e),
                    Ok(output) => match lookup(m, "effect"@) {
                        None => Err((ErrorKind::MissingKey, None, "effect"@)),
                        Some(x) => match spec_effect(x) {
                            Err(e) => Err(e),
                            Ok(effect) => Ok(CardView { input, output, effect }),
                        },
                    },
                },
            },
        },
    }
}

/// Decoding a value as a card.
pub open spec fn spec_card(f: Field) -> Result<CardView, ErrView> {
    match f {
        Field::Struct(m) => spec_card_entries(m@),
        _ => Err((ErrorKind::NotA(FieldKind::Struct), None, seq![])),
    }
}

impl Card {
    /// Decodes the entries of a struct node as a card.
    pub fn from_entries(m: &Vec<(String, Field)>) -> (r: Result<Card, YamlError>)
        ensures
            res_view(r) == spec_card_entries(m@),
    {
        let input = Connector::from_field(get_field(m, "input", None)?)?;
        let output = Connector::from_field(get_field(m, "output", None)?)?;
        let effect = Effect::from_field(get_field(m, "effect", None)?)?;
        Ok(Card { input, output, effect })
    }

    /// Decodes a struct value as a card.
    pub fn from_field(value: &Field) -> (r: Result<Card, YamlError>)
        ensures
            res_view(r) == spec_card(*value),
    {
        match value {
            Field::Struct(m) => Card::from_entries(m),
            _ => Err(YamlError::not_a(FieldKind::Struct)),
        }
    }
}

/// Decoding a list of values as cards, element by element; the first
/// element that fails decides the error.
pub open spec fn spec_cards(fs: Seq<Field>) -> Result<Seq<CardView>, ErrView>
    decreases fs.len(),
{
    if fs.len() == 0 {
        Ok(seq![])
    } else {
        match spec_cards(fs.drop_last()) {
            Err(e) => Err(e),
            Ok(cs) => match spec_card(fs.last()) {
                Err(e) => Err(e),
                Ok(c) => Ok(cs.push(c)),
            },
        }
    }
}

proof fn cards_error_prefix(fs: Seq<Field>, k: int)
    requires
        0 <= k <= fs.len(),
        spec_cards(fs.take(k)) is Err,
    ensures
        spec_cards(fs) == spec_cards(fs.take(k)),
    decreases fs.len(),
{
    if k == fs.len() {
        assert(fs.take(k) =~= fs);
    } else {
        assert(fs.drop_last().take(k) =~= fs.take(k));
        cards_error_prefix(fs.drop_last(), k);
    }
}

pub open spec fn cards_view(cs: Seq<Card>) -> Seq<CardView> {
    cs.map_values(|c: Card| c@)
}

fn cards_from_list(fs: &Vec<Field>) -> (r: Result<Vec<Card>, YamlError>)
    ensures
        match r {
            Ok(cs) => spec_cards(fs@) == Ok::<Seq<CardView>, ErrView>(cards_view(cs@)),
            Err(e) => spec_cards(fs@) == Err::<Seq<CardView>, ErrView>(e@),
        },
{
    let mut out: Vec<Card> = Vec::new();
    let mut i: usize = 0;
    assert(fs@.take(0) =~= Seq::<Field>::empty());
    assert(cards_view(out@) =~= Seq::<CardView>::empty());
    while i < fs.len()
        invariant
            0 <= i <= fs@.len(),
            spec_cards(fs@.take(i as int)) == Ok::<Seq<CardView>, ErrView>(cards_view(out@)),
        decreases fs@.len() - i,
    {
        assert(fs@.take(i as int + 1).drop_last() =~= fs@.take(i as int));
        assert(fs@.take(i as int + 1).last() == fs@[i as int]);
        match Card::from_field(&fs[i]) {
            Ok(c) => {
                let ghost before = out@;
                let ghost cv = c@;
                out.push(c);
                assert(cards_view(out@) =~= cards_view(before).push(cv));
            },
            Err(e) => {
                proof {
                    cards_error_prefix(fs@, i as int + 1);
                }
                return Err(e);
            },
        }
        i = i + 1;
    }
    assert(fs@.take(i as int) =~= fs@);
    Ok(out)
}


/// The mathematical content of a [`Deck`].
pub ghost struct DeckView {
    pub anchor: CardView,
    pub cards: Seq<CardView>,
}

/// A deck: its anchor card and its ordered cards (possibly none).
#[derive(Debug, PartialEq, Eq)]
pub struct Deck {
    pub anchor: Card,
    pub cards: Vec<Card>,
}

impl View for Deck {
    type V = DeckView;

    open spec fn view(&self) -> DeckView {
        DeckView { anchor: self.anchor@, cards: cards_view(self.cards@) }
    }
}

/// Decoding the entries of a struct node as a deck: the `cards` list first,
/// each card in order, then the `anchor` card.
pub open spec fn spec_deck_entries(m: Seq<(String, Field)>) -> Result<DeckView, ErrView> {
    match spec_get_list(m, "cards"@, None) {
        Err(e) => Err(e),
        Ok(l) => match spec_cards(l) {
            Err(e) => Err(e),
            Ok(cards) => match lookup(m, "anchor"@) {
                None => Err((ErrorKind::MissingKey, None, "anchor"@)),
                Some(a) => match spec_card(a) {
                    Err(e) => Err(e),
                    Ok(anchor) => Ok(DeckView { anchor, cards }),
                },
            },
        },
    }
}

impl Deck {
    /// Decodes the entries of a struct node as a deck; no partial deck is
    /// ever produced.
    pub fn from_entries(m: &Vec<(String, Field)>) -> (r: Result<Deck, YamlError>)
        ensures
            res_view(r) == spec_deck_entries(m@),
    {
        let list = get_list(m, "cards", None)?;
        let cards = cards_from_list(list)?;
        let anchor = Card::from_field(get_field(m, "anchor", None)?)?;
        Ok(Deck { anchor, cards })
    }
}


/// A character that parses as a base-10 digit.
pub open spec fn is_digit(c: char) -> bool {
    '0' <= c && c <= '9'
}

/// The value of a digit character.
pub open spec fn digit_value(c: char) -> u8 {
    (c as u32 - '0' as u32) as u8
}

/// The sampled positions of a packed sequence: the first two characters are
/// skipped, then every eighth character is taken.
pub open spec fn sampled(p: int) -> bool {
    p >= 2 && (p - 2) % 8 == 0
}

/// The digits found at sampled positions below `n`, in order; sampled
/// characters that are not digits are dropped.
pub open spec fn digits_upto(s: Seq<char>, n: int) -> Seq<u8>
    decreases n,
{
    if n <= 0 {
        seq![]
    } else {
        let p = n - 1;
        if sampled(p) && p < s.len() && is_digit(s[p]) {
            digits_upto(s, p).push(digit_value(s[p]))
        } else {
            digits_upto(s, p)
        }
    }
}

/// The sequence lengths packed into a `sequence` text.
pub open spec fn sequence_digits(s: Seq<char>) -> Seq<u8> {
    digits_upto(s, s.len() as int)
}

/// Unpacks the sequence lengths of a `sequence` text: the digits at
/// positions 2, 10, 18, ... (counted in characters).
pub fn unpack_sequence(s: &str) -> (r: Vec<u8>)
    ensures
        r@ == sequence_digits(s@),
{
    let n = s.unicode_len();
    let mut out: Vec<u8> = Vec::new();
    let mut p: usize = 0;
    while p < n
        invariant
            p <= n,
            n == s@.len(),
            out@ == digits_upto(s@, p as int),
        decreases n - p,
    {
        if p >= 2 && (p - 2) % 8 == 0 {
            let c = s.get_char(p);
            if '0' <= c && c <= '9' {
                out.push((c as u32 - '0' as u32) as u8);
            }
        }
        p = p + 1;
    }
    out
}


/// The mathematical content of a [`RawEvent`].
pub ghost struct RawEventView {
    pub id: Seq<char>,
    pub npc_guid: Seq<char>,
    pub sequence_count: u8,
    pub strike_count: u8,
    pub sequence_lengths: Seq<u8>,
    pub deck: Option<DeckView>,
}

/// A narrative event as declared in an events document; events are ordered
/// by id. Without an
/// override deck the event uses the referenced character's deck for the
/// current cycle.
#[derive(Debug, PartialEq, Eq)]
pub struct RawEvent {
    pub id: String,
    pub npc_guid: String,
    pub sequence_count: u8,
    pub strike_count: u8,
    pub sequence_lengths: Vec<u8>,
    pub deck: Option<Deck>,
}

pub open spec fn deck_opt_view(d: Option<Deck>) -> Option<DeckView> {
    match d {
        Some(d) => Some(d@),
        None => None,
    }
}

impl View for RawEvent {
    type V = RawEventView;

    open spec fn view(&self) -> RawEventView {
        RawEventView {
            id: self.id@,
            npc_guid: self.npc_guid@,
            sequence_count: self.sequence_count,
            strike_count: self.strike_count,
            sequence_lengths: self.sequence_lengths@,
            deck: deck_opt_view(self.deck),
        }
    }
}

/// The last steps of decoding an event, once its fields have been read:
/// the unpacked sequence must hold `count` digits, both counts must fit in
/// eight bits, and the override deck is read only when `override_deck` is 1.
pub open spec fn spec_event_body(
    m: Seq<(String, Field)>,
    id: Seq<char>,
    sequence: Seq<char>,
    count: u64,
    strikes: u64,
    override_deck: u64,
    guid: Seq<char>,
) -> Result<RawEventView, ErrView> {
    let ctx = Some(id);
    let lengths = sequence_digits(sequence);
    if lengths.len() != count {
        Err((ErrorKind::SequenceMismatch, ctx, "sequence"@))
    } else if count > 255 {
        Err((ErrorKind::OutOfRange, ctx, "sequenceCount"@))
    } else if strikes > 255 {
        Err((ErrorKind::OutOfRange, ctx, "strikeCount"@))
    } else {
        let ev = RawEventView {
            id,
            npc_guid: guid,
            sequence_count: count as u8,
            strike_count: strikes as u8,
            sequence_lengths: lengths,
            deck: None,
        };
        if override_deck == 1 {
            match spec_get_struct(m, "deck"@, ctx) {
                Err(e) => Err(e),
                Ok(d) => match spec_deck_entries(d) {
                    Err(e) => Err(e),
                    Ok(deck) => Ok(RawEventView { deck: Some(deck), ..ev }),
                },
            }
        } else {
            Ok(ev)
        }
    }
}

/// Decoding the entries of a struct node as an event: `id` and `sequence`
/// first, then (with the id as context) `sequenceCount`, `strikeCount`,
/// `overrideDeck`, `npc` and its `guid`, then [`spec_event_body`].
pub open spec fn spec_event_entries(m: Seq<(String, Field)>) -> Result<RawEventView, ErrView> {
    match spec_get_str(m, "id"@, None) {
        Err(e) => Err(e),
        Ok(id) => match spec_get_str(m, "sequence"@, None) {
            Err(e) => Err(e),
            Ok(sequence) => match spec_get_uint(m, "sequenceCount"@, Some(id)) {
                Err(e) => Err(e),
                Ok(count) => match spec_get_uint(m, "strikeCount"@, Some(id)) {
                    Err(e) => Err(e),
                    Ok(strikes) => match spec_get_uint(m, "overrideDeck"@, Some(id)) {
                        Err(e) => Err(e),
                        Ok(ov) => match spec_get_struct(m, "npc"@, Some(id)) {
                            Err(e) => Err(e),
                            Ok(npc) => match spec_get_str(npc, "guid"@, Some(id)) {
                                Err(e) => Err(e),
                                Ok(guid) => spec_event_body(m, id, sequence, count, strikes, ov, guid),
                            },
                        },
                    },
                },
            },
        },
    }
}

/// Decoding a value as an event.
pub open spec fn spec_event(f: Field) -> Result<RawEventView, ErrView> {
    match f {
        Field::Struct(m) => spec_event_entries(m@),
        _ => Err((ErrorKind::NotA(FieldKind::Struct), None, seq![])),
    }
}

impl PartialOrd for RawEvent {
    fn partial_cmp(&self, other: &RawEvent) -> (r: Option<core::cmp::Ordering>) {
        if text_less(self.id.as_str(), other.id.as_str()) {
            Some(core::cmp::Ordering::Less)
        } else if self.id == other.id {
            Some(core::cmp::Ordering::Equal)
        } else {
            Some(core::cmp::Ordering::Greater)
        }
    }
}

impl vstd::std_specs::cmp::PartialOrdSpecImpl for RawEvent {
    open spec fn obeys_partial_cmp_spec() -> bool {
        true
    }

    open spec fn partial_cmp_spec(&self, other: &RawEvent) -> Option<core::cmp::Ordering> {
        id_order(self.id@, other.id@)
    }
}

impl RawEvent {
    /// Decodes the entries of a struct node as an event.
    pub fn from_entries(m: &Vec<(String, Field)>) -> (r: Result<RawEvent, YamlError>)
        ensures
            res_view(r) == spec_event_entries(m@),
    {
        let id = get_str(m, "id", None)?;
        let sequence = get_str(m, "sequence", None)?;
        let count = get_uint(m, "sequenceCount", Some(id))?;
        let strikes = get_uint(m, "strikeCount", Some(id))?;
        let override_deck = get_uint(m, "overrideDeck", Some(id))?;
        let npc = get_struct(m, "npc", Some(id))?;
        let guid = get_str(npc, "guid", Some(id))?;
        let lengths = unpack_sequence(sequence.as_str());
        if lengths.len() as u64 != count {
            return Err(YamlError::with(ErrorKind::SequenceMismatch, Some(id), "sequence"));
        }
        if count > 255 {
            return Err(YamlError::with(ErrorKind::OutOfRange, Some(id), "sequenceCount"));
        }
        if strikes > 255 {
            return Err(YamlError::with(ErrorKind::OutOfRange, Some(id), "strikeCount"));
        }
        let deck = if override_deck == 1 {
            let d = get_struct(m, "deck", Some(id))?;
            Some(Deck::from_entries(d)?)
        } else {
            None
        };
        Ok(RawEvent {
            id: id.clone(),
            npc_guid: guid.clone(),
            sequence_count: count as u8,
            strike_count: strikes as u8,
            sequence_lengths: lengths,
            deck,
        })
    }

    /// Decodes a struct value as an event.
    pub fn from_field(value: &Field) -> (r: Result<RawEvent, YamlError>)
        ensures
            res_view(r) == spec_event(*value),
    {
        match value {
            Field::Struct(m) => RawEvent::from_entries(m),
            _ => Err(YamlError::not_a(FieldKind::Struct)),
        }
    }
}


/// When every other field of an event is present, well typed and in range,
/// the event decodes exactly when its `sequence` text holds `sequenceCount`
/// digits at the sampled positions; otherwise decoding fails with a
/// sequence mismatch that names the event id.
pub proof fn event_decodes_iff_sequence_matches(
    m: Seq<(String, Field)>,
    id: Seq<char>,
    sequence: Seq<char>,
    count: u64,
    strikes: u64,
)
    requires
        spec_get_str(m, "id"@, None) == Ok::<Seq<char>, ErrView>(id),
        spec_get_str(m, "sequence"@, None) == Ok::<Seq<char>, ErrView>(sequence),
        spec_get_uint(m, "sequenceCount"@, Some(id)) == Ok::<u64, ErrView>(count),
        spec_get_uint(m, "strikeCount"@, Some(id)) == Ok::<u64, ErrView>(strikes),
        strikes <= 255,
        spec_get_uint(m, "overrideDeck"@, Some(id)) is Ok,
        spec_get_uint(m, "overrideDeck"@, Some(id)) == Ok::<u64, ErrView>(1) ==> (spec_get_struct(
            m,
            "deck"@,
            Some(id),
        ) matches Ok(d) && spec_deck_entries(d) is Ok),
        spec_get_struct(m, "npc"@, Some(id)) matches Ok(npc) && spec_get_str(npc, "guid"@, Some(id)) is Ok,
        sequence_digits(sequence).len() == count ==> count <= 255,
    ensures
        spec_event_entries(m) is Ok <==> sequence_digits(sequence).len() == count,
        sequence_digits(sequence).len() != count ==> spec_event_entries(m) == Err::<RawEventView, ErrView>(
            (ErrorKind::SequenceMismatch, Some(id), "sequence"@),
        ),
{
}

/// An event whose `overrideDeck` is 0 decodes without a deck, and adding a
/// `deck` entry to it changes nothing; an event whose `overrideDeck` is 1
/// and that has no `deck` entry does not decode.
pub proof fn event_override_deck(m: Seq<(String, Field)>, deck: (String, Field))
    requires
        deck.0@ == "deck"@,
    ensures
        lookup(m, "overrideDeck"@) == Some(Field::Uint(0)) ==> (spec_event_entries(m) matches Ok(ev)
            ==> ev.deck is None),
        lookup(m, "overrideDeck"@) == Some(Field::Uint(0)) && lookup(m, "deck"@) is None
            ==> spec_event_entries(m.push(deck)) == spec_event_entries(m),
        lookup(m, "overrideDeck"@) == Some(Field::Uint(1)) && lookup(m, "deck"@) is None
            ==> spec_event_entries(m) is Err,
{
    reveal_strlit("deck");
    reveal_strlit("id");
    reveal_strlit("sequence");
    reveal_strlit("sequenceCount");
    reveal_strlit("strikeCount");
    reveal_strlit("overrideDeck");
    reveal_strlit("npc");
    lookup_push(m, deck, "id"@);
    lookup_push(m, deck, "sequence"@);
    lookup_push(m, deck, "sequenceCount"@);
    lookup_push(m, deck, "strikeCount"@);
    lookup_push(m, deck, "overrideDeck"@);
    lookup_push(m, deck, "npc"@);
    assert("deck"@.len() == 4 && "deck"@[0] == 'd');
    assert("id"@ != "deck"@);
    assert("sequence"@ != "deck"@);
    assert("sequenceCount"@ != "deck"@);
    assert("strikeCount"@ != "deck"@);
    assert("overrideDeck"@ != "deck"@);
    assert("npc"@ != "deck"@);
}


/// The mathematical content of an [`NPC`].
pub ghost struct NpcView {
    pub id: Seq<char>,
    pub hand_size: u8,
    pub prefers_doubles: bool,
    pub mad_threshold: u8,
    pub decks: Seq<DeckView>,
}

/// A non-player character with one deck for each of the six cycles.
/// Characters compare by their ids alone.
#[derive(Debug)]
pub struct NPC {
    pub id: String,
    pub hand_size: u8,
    pub prefers_doubles: bool,
    pub mad_threshold: u8,
    pub decks: [Deck; 6],
}

impl View for NPC {
    type V = NpcView;

    open spec fn view(&self) -> NpcView {
        NpcView {
            id: self.id@,
            hand_size: self.hand_size,
            prefers_doubles: self.prefers_doubles,
            mad_threshold: self.mad_threshold,
            decks: self.decks@.map_values(|d: Deck| d@),
        }
    }
}

impl PartialEq for NPC {
    fn eq(&self, other: &NPC) -> (r: bool) {
        self.id == other.id
    }
}

impl vstd::std_specs::cmp::PartialEqSpecImpl for NPC {
    open spec fn obeys_eq_spec() -> bool {
        true
    }

    open spec fn eq_spec(&self, other: &NPC) -> bool {
        self.id@ == other.id@
    }
}

impl Eq for NPC {
}

/// The order of records keyed by id: the order of their ids.
pub open spec fn id_order(a: Seq<char>, b: Seq<char>) -> Option<core::cmp::Ordering> {
    if text_lt(a, b) {
        Some(core::cmp::Ordering::Less)
    } else if a == b {
        Some(core::cmp::Ordering::Equal)
    } else {
        Some(core::cmp::Ordering::Greater)
    }
}

impl PartialOrd for NPC {
    fn partial_cmp(&self, other: &NPC) -> (r: Option<core::cmp::Ordering>) {
        if text_less(self.id.as_str(), other.id.as_str()) {
            Some(core::cmp::Ordering::Less)
        } else if self.id == other.id {
            Some(core::cmp::Ordering::Equal)
        } else {
            Some(core::cmp::Ordering::Greater)
        }
    }
}

impl vstd::std_specs::cmp::PartialOrdSpecImpl for NPC {
    open spec fn obeys_partial_cmp_spec() -> bool {
        true
    }

    open spec fn partial_cmp_spec(&self, other: &NPC) -> Option<core::cmp::Ordering> {
        id_order(self.id@, other.id@)
    }
}

/// Decoding the six deck slots of a character, cycle 0 first.
pub open spec fn spec_npc_decks(
    d0: Seq<(String, Field)>,
    d1: Seq<(String, Field)>,
    d2: Seq<(String, Field)>,
    d3: Seq<(String, Field)>,
    d4: Seq<(String, Field)>,
    d5: Seq<(String, Field)>,
) -> Result<Seq<DeckView>, ErrView> {
    match spec_deck_entries(d0) {
        Err(e) => Err(e),
        Ok(k0) => match spec_deck_entries(d1) {
            Err(e) => Err(e),
            Ok(k1) => match spec_deck_entries(d2) {
                Err(e) => Err(e),
                Ok(k2) => match spec_deck_entries(d3) {
                    Err(e) => Err(e),
                    Ok(k3) => match spec_deck_entries(d4) {
                        Err(e) => Err(e),
                        Ok(k4) => match spec_deck_entries(d5) {
                            Err(e) => Err(e),
                            Ok(k5) => Ok(seq![k0, k1, k2, k3, k4, k5]),
                        },
                    },
                },
            },
        },
    }
}

/// Decoding the entries of a struct node as a character: `id`, `handSize`,
/// `prefersDoubles`, `mad` and the six slots `deck0` to `deck5` are read in
/// that order, then the six decks are decoded. Counts are truncated to
/// eight bits; `prefersDoubles` holds when it is not 0.
pub open spec fn spec_npc_entries(m: Seq<(String, Field)>) -> Result<NpcView, ErrView> {
    match spec_get_str(m, "id"@, None) {
        Err(e) => Err(e),
        Ok(id) => match spec_get_uint(m, "handSize"@, None) {
            Err(e) => Err(e),
            Ok(hand) => match spec_get_uint(m, "prefersDoubles"@, None) {
                Err(e) => Err(e),
                Ok(doubles) => match spec_get_uint(m, "mad"@, None) {
                    Err(e) => Err(e),
                    Ok(mad) => match spec_get_struct(m, "deck0"@, None) {
                        Err(e) => Err(e),
                        Ok(d0) => match spec_get_struct(m, "deck1"@, None) {
                            Err(e) => Err(e),
                            Ok(d1) => match spec_get_struct(m, "deck2"@, None) {
                                Err(e) => Err(e),
                                Ok(d2) => match spec_get_struct(m, "deck3"@, None) {
                                    Err(e) => Err(e),
                                    Ok(d3) => match spec_get_struct(m, "deck4"@, None) {
                                        Err(e) => Err(e),
                                        Ok(d4) => match spec_get_struct(m, "deck5"@, None) {
                                            Err(e) => Err(e),
                                            Ok(d5) => match spec_npc_decks(d0, d1, d2, d3, d4, d5) {
                                                Err(e) => Err(e),
                                                Ok(decks) => Ok(
                                                    NpcView {
                                                        id,
                                                        hand_size: hand as u8,
                                                        prefers_doubles: doubles != 0,
                                                        mad_threshold: mad as u8,
                                                        decks,
                                                    },
                                                ),
                                            },
                                        },
                                    },
                                },
                            },
                        },
                    },
                },
            },
        },
    }
}

/// Whether a struct node looks like a character record: it has a `deck0`.
pub open spec fn spec_is_npc(m: Seq<(String, Field)>) -> bool {
    lookup(m, "deck0"@) is Some
}

/// Decoding an asset document: its root must be a struct holding a
/// `MonoBehaviour` struct; that struct is decoded as a character when it
/// looks like one, and is otherwise skipped.
pub open spec fn spec_asset(root: Field) -> Result<Option<NpcView>, ErrView> {
    match root {
        Field::Struct(r) => match spec_get_struct(r@, "MonoBehaviour"@, None) {
            Err(e) => Err(e),
            Ok(mb) => if spec_is_npc(mb) {
                match spec_npc_entries(mb) {
                    Err(e) => Err(e),
                    Ok(npc) => Ok(Some(npc)),
                }
            } else {
                Ok(None)
            },
        },
        _ => Err((ErrorKind::NotA(FieldKind::Struct), None, seq![])),
    }
}

impl NPC {
    /// Whether a struct node looks like a character record.
    pub fn is_npc(m: &Vec<(String, Field)>) -> (r: bool)
        ensures
            r == spec_is_npc(m@),
    {
        get_field(m, "deck0", None).is_ok()
    }

    /// Decodes the entries of a struct node as a character.
    pub fn from_entries(m: &Vec<(String, Field)>) -> (r: Result<NPC, YamlError>)
        ensures
            res_view(r) == spec_npc_entries(m@),
    {
        let id = get_str(m, "id", None)?;
        let hand = get_uint(m, "handSize", None)?;
        let doubles = get_uint(m, "prefersDoubles", None)?;
        let mad = get_uint(m, "mad", None)?;
        let d0 = get_struct(m, "deck0", None)?;
        let d1 = get_struct(m, "deck1", None)?;
        let d2 = get_struct(m, "deck2", None)?;
        let d3 = get_struct(m, "deck3", None)?;
        let d4 = get_struct(m, "deck4", None)?;
        let d5 = get_struct(m, "deck5", None)?;
        let k0 = Deck::from_entries(d0)?;
        let k1 = Deck::from_entries(d1)?;
        let k2 = Deck::from_entries(d2)?;
        let k3 = Deck::from_entries(d3)?;
        let k4 = Deck::from_entries(d4)?;
        let k5 = Deck::from_entries(d5)?;
        let npc = NPC {
            id: id.clone(),
            hand_size: hand as u8,
            prefers_doubles: doubles != 0,
            mad_threshold: mad as u8,
            decks: [k0, k1, k2, k3, k4, k5],
        };
        assert(npc@.decks =~= seq![k0@, k1@, k2@, k3@, k4@, k5@]);
        Ok(npc)
    }

    /// Decodes a parsed asset document: `Ok(None)` for an asset that is not
    /// a character.
    pub fn load_asset(root: &Field) -> (r: Result<Option<NPC>, YamlError>)
        ensures
            match r {
                Ok(Some(npc)) => spec_asset(*root) == Ok::<Option<NpcView>, ErrView>(Some(npc@)),
                Ok(None) => spec_asset(*root) == Ok::<Option<NpcView>, ErrView>(None),
                Err(e) => spec_asset(*root) == Err::<Option<NpcView>, ErrView>(e@),
            },
    {
        match root {
            Field::Struct(r) => {
                let mb = get_struct(r, "MonoBehaviour", None)?;
                if NPC::is_npc(mb) {
                    Ok(Some(NPC::from_entries(mb)?))
                } else {
                    Ok(None)
                }
            },
            _ => Err(YamlError::not_a(FieldKind::Struct)),
        }
    }
}


/// The label of an effect; no effect has an empty label.
pub open spec fn effect_text(e: Effect) -> Seq<char> {
    match e {
        Effect::NoEffect => ""@,
        Effect::Chain => "Chatter"@,
        Effect::Inherit => "Elaborate"@,
        Effect::Duplicate => "Accommodate"@,
        Effect::Insert => "Clarify"@,
        Effect::Collapse => "Backtrack"@,
        Effect::Redraw => "Reconsider"@,
        Effect::ViewHand => "Observe"@,
        Effect::Choose => "Prepare"@,
        Effect::Listen => "Listen"@,
    }
}

impl Effect {
    /// The label of the effect.
    pub fn to_text(&self) -> (r: String)
        ensures
            r@ == effect_text(*self),
    {
        let t: &str = match *self {
            Effect::NoEffect => "",
            Effect::Chain => "Chatter",
            Effect::Inherit => "Elaborate",
            Effect::Duplicate => "Accommodate",
            Effect::Insert => "Clarify",
            Effect::Collapse => "Backtrack",
            Effect::Redraw => "Reconsider",
            Effect::ViewHand => "Observe",
            Effect::Choose => "Prepare",
            Effect::Listen => "Listen",
        };
        String::from_str(t)
    }
}

/// The glyph of a shape tag.
pub open spec fn glyph_text(c: ConnectType) -> Seq<char> {
    match c {
        ConnectType::Circle => "○"@,
        ConnectType::Triangle => "△"@,
        ConnectType::Square => "□"@,
        ConnectType::Diamond => "◊"@,
        ConnectType::Dog => "🐾"@,
        ConnectType::Spiral => "@"@,
    }
}

impl ConnectType {
    /// The glyph of the tag.
    pub fn to_text(&self) -> (r: String)
        ensures
            r@ == glyph_text(*self),
    {
        let t: &str = match *self {
            ConnectType::Circle => "○",
            ConnectType::Triangle => "△",
            ConnectType::Square => "□",
            ConnectType::Diamond => "◊",
            ConnectType::Dog => "🐾",
            ConnectType::Spiral => "@",
        };
        String::from_str(t)
    }
}

/// The glyphs of a connector's tags, in order, without separators.
pub open spec fn connector_text(s: Seq<ConnectType>) -> Seq<char>
    decreases s.len(),
{
    if s.len() == 0 {
        seq![]
    } else {
        connector_text(s.drop_last()) + glyph_text(s.last())
    }
}

impl Connector {
    /// The glyphs of the connector's tags, in canonical order.
    pub fn to_text(&self) -> (r: String)
        ensures
            r@ == connector_text(self@),
            canonical(self@),
    {
        proof {
            use_type_invariant(self);
        }
        let mut out = String::new();
        let mut i: usize = 0;
        while i < self.0.len()
            invariant
                0 <= i <= self.0@.len(),
                out@ == connector_text(self.0@.take(i as int)),
            decreases self.0@.len() - i,
        {
            assert(self.0@.take(i as int + 1).drop_last() =~= self.0@.take(i as int));
            let g = self.0[i].to_text();
            out.append(g.as_str());
            i = i + 1;
        }
        assert(self.0@.take(i as int) =~= self.0@);
        out
    }
}

/// A card as `input | output`, followed by ` + effect` when it has one.
pub open spec fn card_text(c: CardView) -> Seq<char> {
    connector_text(c.input) + " | "@ + connector_text(c.output) + if c.effect != Effect::NoEffect {
        " + "@ + effect_text(c.effect)
    } else {
        seq![]
    }
}

impl Card {
    /// The card as text.
    pub fn to_text(&self) -> (r: String)
        ensures
            r@ == card_text(self@),
    {
        let mut out = self.input.to_text();
        out.append(" | ");
        let o = self.output.to_text();
        out.append(o.as_str());
        if self.effect != Effect::NoEffect {
            let ghost before = out@;
            out.append(" + ");
            let e = self.effect.to_text();
            out.append(e.as_str());
            assert(out@ =~= before + (" + "@ + effect_text(self.effect)));
        } else {
            assert(out@ =~= out@ + Seq::<char>::empty());
        }
        out
    }
}

pub open spec fn cards_text(cs: Seq<CardView>) -> Seq<Seq<char>> {
    cs.map_values(|c: CardView| card_text(c))
}

/// A deck as its anchor line followed by one line per card.
pub open spec fn deck_text(d: DeckView) -> Seq<char> {
    "\t\tanchor: "@ + card_text(d.anchor) + "\n\t\t"@ + join(cards_text(d.cards), "\n\t\t"@)
}

impl Deck {
    /// The deck as text.
    pub fn to_text(&self) -> (r: String)
        ensures
            r@ == deck_text(self@),
    {
        let mut texts: Vec<String> = Vec::new();
        let mut i: usize = 0;
        while i < self.cards.len()
            invariant
                0 <= i <= self.cards@.len(),
                texts_view(texts@) =~= cards_text(cards_view(self.cards@.take(i as int))),
            decreases self.cards@.len() - i,
        {
            let ghost before = texts@;
            let t = self.cards[i].to_text();
            texts.push(t);
            assert(texts_view(texts@) =~= texts_view(before).push(card_text(self.cards@[i as int]@)));
            assert(self.cards@.take(i as int + 1) =~= self.cards@.take(i as int).push(self.cards@[i as int]));
            assert(cards_text(cards_view(self.cards@.take(i as int + 1))) =~= cards_text(cards_view(self.cards@.take(i as int))).push(card_text(self.cards@[i as int]@)));
            i = i + 1;
        }
        assert(self.cards@.take(i as int) =~= self.cards@);
        let mut out = String::from_str("\t\tanchor: ");
        let a = self.anchor.to_text();
        out.append(a.as_str());
        out.append("\n\t\t");
        let body = write_vec_sep(&texts, "\n\t\t");
        out.append(body.as_str());
        out
    }
}


/// The numbers of a sequence as `a, b, c`.
pub open spec fn lengths_text(v: Seq<u8>) -> Seq<char> {
    join(numbers_text(v), ", "@)
}

/// Renders the sequence lengths of an event.
pub fn lengths_to_text(v: &Vec<u8>) -> (r: String)
    ensures
        r@ == lengths_text(v@),
{
    let texts = decimals(v);
    write_vec_sep(&texts, ", ")
}

/// An event record as a block of labelled lines.
pub open spec fn raw_event_text(e: RawEventView) -> Seq<char> {
    e.id + ":\n"@ + "\tnpc_guid: "@ + e.npc_guid + "\n"@ + "\tsequence_count: "@ + decimal_text(
        e.sequence_count as nat,
    ) + "\n"@ + "\tstrike_count: "@ + decimal_text(e.strike_count as nat) + "\n"@
        + "\tsequence_lengths: "@ + lengths_text(e.sequence_lengths) + "\n\tdeck:\n"@ + match e.deck {
        Some(d) => deck_text(d) + "\n"@,
        None => "\t\tDefault for cycle; see character with npc guid `"@ + e.npc_guid + "`\n"@,
    }
}

impl RawEvent {
    /// The event record as text.
    pub fn to_text(&self) -> (r: String)
        ensures
            r@ == raw_event_text(self@),
    {
        let mut out = self.id.clone();
        out.append(":\n");
        out.append("\tnpc_guid: ");
        out.append(self.npc_guid.as_str());
        out.append("\n");
        out.append("\tsequence_count: ");
        let c = decimal(self.sequence_count as u64);
        out.append(c.as_str());
        out.append("\n");
        out.append("\tstrike_count: ");
        let k = decimal(self.strike_count as u64);
        out.append(k.as_str());
        out.append("\n");
        out.append("\tsequence_lengths: ");
        let l = lengths_to_text(&self.sequence_lengths);
        out.append(l.as_str());
        out.append("\n\tdeck:\n");
        let ghost before = out@;
        match &self.deck {
            Some(d) => {
                let t = d.to_text();
                out.append(t.as_str());
                out.append("\n");
                assert(out@ =~= before + (deck_text(d@) + "\n"@));
            },
            None => {
                out.append("\t\tDefault for cycle; see character with npc guid `");
                out.append(self.npc_guid.as_str());
                out.append("`\n");
                assert(out@ =~= before + ("\t\tDefault for cycle; see character with npc guid `"@ + self.npc_guid@ + "`\n"@));
            },
        }
        out
    }
}

/// The summary lines of a character.
pub open spec fn npc_details_text(n: NpcView) -> Seq<char> {
    "NPC - "@ + n.id + ":\n"@ + "\tHand Size: "@ + decimal_text(n.hand_size as nat) + "\n"@
        + "\tPrefers Doubles: "@ + (if n.prefers_doubles {
        "true"@
    } else {
        "false"@
    }) + "\n"@ + "\tDiscordances to become mad: "@ + decimal_text(n.mad_threshold as nat) + "\n"@
}

/// The heading and deck of one cycle of a character.
pub open spec fn cycle_deck_text(n: NpcView, cycle: int) -> Seq<char> {
    "\tDeck for cycle "@ + decimal_text(cycle as nat) + ":\n"@ + deck_text(n.decks[cycle]) + "\n"@
}

/// The heading and deck used when the cycle is not one of 1 to 5.
pub open spec fn fallback_deck_text(n: NpcView) -> Seq<char> {
    "\tFallback deck (unexpected cycle value):\n"@ + deck_text(n.decks[0]) + "\n"@
}

/// The decks of cycles 1 to 5, then the fallback deck.
pub open spec fn all_decks_text(n: NpcView) -> Seq<char> {
    cycle_deck_text(n, 1) + cycle_deck_text(n, 2) + cycle_deck_text(n, 3) + cycle_deck_text(n, 4)
        + cycle_deck_text(n, 5) + fallback_deck_text(n)
}

impl NPC {
    /// The character's summary: id, hand size, preference for doubles and
    /// the number of discordances that make it mad.
    pub fn print_details(&self) -> (r: String)
        ensures
            r@ == npc_details_text(self@),
    {
        let mut out = String::from_str("NPC - ");
        out.append(self.id.as_str());
        out.append(":\n");
        out.append("\tHand Size: ");
        let h = decimal(self.hand_size as u64);
        out.append(h.as_str());
        out.append("\n");
        out.append("\tPrefers Doubles: ");
        let b: &str = if self.prefers_doubles { "true" } else { "false" };
        out.append(b);
        out.append("\n");
        out.append("\tDiscordances to become mad: ");
        let m = decimal(self.mad_threshold as u64);
        out.append(m.as_str());
        out.append("\n");
        out
    }

    /// The deck of cycle `cycle`, under a heading.
    pub fn print_deck(&self, cycle: usize) -> (r: String)
        requires
            cycle < 6,
        ensures
            r@ == cycle_deck_text(self@, cycle as int),
    {
        let mut out = String::from_str("\tDeck for cycle ");
        let c = decimal(cycle as u64);
        out.append(c.as_str());
        out.append(":\n");
        let d = self.decks[cycle].to_text();
        out.append(d.as_str());
        out.append("\n");
        out
    }

    /// The deck of cycle 0, shown when the cycle is unexpected.
    pub fn print_fallback_deck(&self) -> (r: String)
        ensures
            r@ == fallback_deck_text(self@),
    {
        let mut out = String::from_str("\tFallback deck (unexpected cycle value):\n");
        let d = self.decks[0].to_text();
        out.append(d.as_str());
        out.append("\n");
        out
    }

    /// The decks of cycles 1 to 5 and then the fallback deck.
    pub fn print_all_decks(&self) -> (r: String)
        ensures
            r@ == all_decks_text(self@),
    {
        let mut out = self.print_deck(1);
        let d2 = self.print_deck(2);
        out.append(d2.as_str());
        let d3 = self.print_deck(3);
        out.append(d3.as_str());
        let d4 = self.print_deck(4);
        out.append(d4.as_str());
        let d5 = self.print_deck(5);
        out.append(d5.as_str());
        let f = self.print_fallback_deck();
        out.append(f.as_str());
        out
    }
}

} // verus!
