use vstd::prelude::*;

use bimap::BiBTreeMap;

use crate::data::{all_decks_text, cycle_deck_text, fallback_deck_text, deck_text, lengths_text, lengths_to_text, spec_event, NpcView, RawEvent, RawEventView, NPC};
use crate::text::{
    decimal, decimal_text, lower_of, lowercase, same_text, slot_exists, slot_insert_sorted, slot_of, slot_unique, text_less, text_lt,
    text_lt_irreflexive, text_lt_total, texts_sorted, texts_view,
};
use crate::yaml::{
    get_list, get_str, get_struct, res_view, spec_get_list, spec_get_str, spec_get_struct, ErrView,
    ErrorKind, Field, FieldKind, YamlError,
};

verus! {

#[verifier::external_type_specification]
#[verifier::external_body]
#[verifier::reject_recursive_types(L)]
#[verifier::reject_recursive_types(R)]
pub struct ExBiBTreeMap<L, R>(BiBTreeMap<L, R>);

/// The pairs held by a bimap from opaque identifiers to character ids.
pub uninterp spec fn guid_pairs(m: BiBTreeMap<String, String>) -> Map<Seq<char>, Seq<char>>;

/// A map without any pair.
pub open spec fn no_pairs(m: Map<Seq<char>, Seq<char>>) -> bool {
    m == Map::<Seq<char>, Seq<char>>::empty()
}

/// Relies on `bimap::BiBTreeMap::new`: the new bimap holds no pair.
#[verifier::external_body]
fn new_guid_map() -> (r: BiBTreeMap<String, String>)
    ensures
        no_pairs(guid_pairs(r)),
{
    BiBTreeMap::new()
}

/// Relies on `bimap::BiBTreeMap::get_by_left`: the right value paired with
/// `left`, if there is one (strings compare by their characters).
#[verifier::external_body]
fn right_of(m: &BiBTreeMap<String, String>, left: &String) -> (r: Option<String>)
    ensures
        match r {
            Some(v) => guid_pairs(*m).contains_key(left@) && guid_pairs(*m)[left@] == v@,
            None => !guid_pairs(*m).contains_key(left@),
        },
{
    m.get_by_left(left).cloned()
}

/// Relies on `bimap::BiBTreeMap::get_by_right`: the left value paired with
/// `right`, if there is one.
#[verifier::external_body]
fn left_of(m: &BiBTreeMap<String, String>, right: &String) -> (r: Option<String>)
    ensures
        match r {
            Some(k) => guid_pairs(*m).contains_key(k@) && guid_pairs(*m)[k@] == right@,
            None => forall|k: Seq<char>| #[trigger] guid_pairs(*m).contains_key(k) ==> guid_pairs(*m)[k] != right@,
        },
{
    m.get_by_right(right).cloned()
}

/// Relies on `bimap::BiBTreeMap::right_values`: every right value, once,
/// in increasing order (`String` orders by characters).
#[verifier::external_body]
fn right_values(m: &BiBTreeMap<String, String>) -> (r: Vec<String>)
    ensures
        texts_sorted(texts_view(r@)),
        forall|i: int| 0 <= i < r@.len() ==> has_npc_id(guid_pairs(*m), #[trigger] r@[i]@),
        forall|k: Seq<char>| #[trigger] guid_pairs(*m).contains_key(k) ==> texts_view(r@).contains(guid_pairs(*m)[k]),
{
    m.right_values().cloned().collect()
}

/// Relies on `bimap::BiBTreeMap::insert_no_overwrite`: the pair is added
/// when neither value is present yet, and the bimap is left as it was
/// otherwise.
#[verifier::external_body]
fn insert_pair(m: &mut BiBTreeMap<String, String>, left: String, right: String) -> (r: bool)
    ensures
        r == (!guid_pairs(*old(m)).contains_key(left@) && forall|k: Seq<char>| #[trigger] guid_pairs(*old(m)).contains_key(k) ==> guid_pairs(*old(m))[k] != right@),
        r ==> guid_pairs(*final(m)) == guid_pairs(*old(m)).insert(left@, right@),
        !r ==> guid_pairs(*final(m)) == guid_pairs(*old(m)),
{
    m.insert_no_overwrite(left, right).is_ok()
}


/// The mathematical content of an [`Event`].
pub ghost struct EventView {
    pub npc_id: Seq<char>,
    pub event: RawEventView,
}

/// An event linked to the id of the character it references.
#[derive(Debug)]
pub struct Event {
    pub npc_id: String,
    pub event: RawEvent,
}

impl View for Event {
    type V = EventView;

    open spec fn view(&self) -> EventView {
        EventView { npc_id: self.npc_id@, event: self.event@ }
    }
}

pub open spec fn index_view(ix: Seq<(String, Vec<String>)>) -> Seq<(Seq<char>, Seq<Seq<char>>)> {
    ix.map_values(|p: (String, Vec<String>)| (p.0@, texts_view(p.1@)))
}

pub open spec fn npcs_view(ns: Seq<(String, NPC)>) -> Seq<(Seq<char>, NpcView)> {
    ns.map_values(|p: (String, NPC)| (p.0@, p.1@))
}

pub open spec fn events_view(evs: Seq<Event>) -> Seq<EventView> {
    evs.map_values(|e: Event| e@)
}

/// The mathematical content of an [`App`]: the bijection from opaque
/// identifiers to character ids, the characters keyed by opaque identifier
/// (in registration order), the reverse index from character id to the ids
/// of its events, and the linked events in increasing order of id.
pub ghost struct AppView {
    pub guids: Map<Seq<char>, Seq<char>>,
    pub npcs: Seq<(Seq<char>, NpcView)>,
    pub index: Seq<(Seq<char>, Seq<Seq<char>>)>,
    pub events: Seq<EventView>,
}

/// The store of loaded characters and events.
#[derive(Debug)]
pub struct App {
    npc_guids: BiBTreeMap<String, String>,
    npc_map: Vec<(String, NPC)>,
    npc_events: Vec<(String, Vec<String>)>,
    event_map: Vec<Event>,
}

impl App {
    /// The store always satisfies [`app_wf`].
    #[verifier::type_invariant]
    closed spec fn inv(&self) -> bool {
        app_wf(self@)
    }
}

impl View for App {
    type V = AppView;

    closed spec fn view(&self) -> AppView {
        AppView {
            guids: guid_pairs(self.npc_guids),
            npcs: npcs_view(self.npc_map@),
            index: index_view(self.npc_events@),
            events: events_view(self.event_map@),
        }
    }
}

/// Whether `id` is a value of the bijection.
pub open spec fn has_npc_id(guids: Map<Seq<char>, Seq<char>>, id: Seq<char>) -> bool {
    exists|g: Seq<char>| #[trigger] guids.contains_key(g) && guids[g] == id
}

/// The invariant of the registered characters: each character is registered
/// under its opaque identifier in the bijection and has one entry, in the
/// same position, in the reverse index, whose entries list event ids in
/// increasing order; identifiers and character ids are unique.
pub open spec fn npcs_wf(guids: Map<Seq<char>, Seq<char>>, npcs: Seq<(Seq<char>, NpcView)>, index: Seq<(Seq<char>, Seq<Seq<char>>)>) -> bool {
    &&& npcs.len() == index.len()
    &&& forall|i: int| 0 <= i < npcs.len() ==> #[trigger] index[i].0 == npcs[i].1.id
    &&& forall|i: int| 0 <= i < npcs.len() ==> #[trigger] guids.contains_key(npcs[i].0)
        && guids[npcs[i].0] == npcs[i].1.id
    &&& forall|g: Seq<char>| #[trigger] guids.contains_key(g) ==> exists|i: int| 0 <= i < npcs.len() && #[trigger] npcs[i].0 == g
    &&& forall|i: int, j: int| 0 <= i < npcs.len() && 0 <= j < npcs.len() && i != j ==> #[trigger] npcs[i].0 != #[trigger] npcs[j].0
    &&& forall|i: int, j: int| 0 <= i < index.len() && 0 <= j < index.len() && i != j ==> #[trigger] index[i].0 != #[trigger] index[j].0
    &&& forall|i: int| 0 <= i < index.len() ==> texts_sorted(#[trigger] index[i].1)
}

/// The reverse index lists event `eid` for character `npc_id`.
pub open spec fn listed(index: Seq<(Seq<char>, Seq<Seq<char>>)>, npc_id: Seq<char>, eid: Seq<char>) -> bool {
    exists|j: int| 0 <= j < index.len() && #[trigger] index[j].0 == npc_id && index[j].1.contains(eid)
}

/// The stored events agree with the bijection and the reverse index: each
/// event's character id is the one its opaque identifier maps to, each event
/// is listed in its character's entry, and each listed id is the id of a
/// stored event.
pub open spec fn links_wf(
    guids: Map<Seq<char>, Seq<char>>,
    index: Seq<(Seq<char>, Seq<Seq<char>>)>,
    events: Seq<EventView>,
) -> bool {
    &&& forall|k: int| #![trigger events[k]] 0 <= k < events.len() ==> guids.contains_key(events[k].event.npc_guid)
        && guids[events[k].event.npc_guid] == events[k].npc_id
    &&& forall|k: int| #![trigger events[k]] 0 <= k < events.len() ==> listed(index, events[k].npc_id, events[k].event.id)
    &&& forall|j: int, t: Seq<char>| #![trigger index[j].1.contains(t)] 0 <= j < index.len() && index[j].1.contains(t)
        ==> exists|k: int| #![trigger events[k]] 0 <= k < events.len() && events[k].event.id == t
}

/// The store's invariant: [`npcs_wf`], events in increasing order of id,
/// and [`links_wf`].
pub open spec fn app_wf(v: AppView) -> bool {
    npcs_wf(v.guids, v.npcs, v.index) && events_sorted(v.events) && links_wf(v.guids, v.index, v.events)
}

/// The ids of a sequence of events.
pub open spec fn event_keys(evs: Seq<EventView>) -> Seq<Seq<char>> {
    evs.map_values(|e: EventView| e.event.id)
}

/// Events in strictly increasing order of id (so no two share an id).
pub open spec fn events_sorted(evs: Seq<EventView>) -> bool {
    texts_sorted(event_keys(evs))
}

/// Registering a character under an opaque identifier: the identifier and
/// the character id must both be new.
pub open spec fn spec_add_npc(v: AppView, guid: Seq<char>, npc: NpcView) -> Result<AppView, ErrView> {
    if v.guids.contains_key(guid) {
        Err((ErrorKind::DuplicateGuid, None, guid))
    } else if has_npc_id(v.guids, npc.id) {
        Err((ErrorKind::DuplicateNpcId, None, npc.id))
    } else {
        Ok(AppView {
            guids: v.guids.insert(guid, npc.id),
            npcs: v.npcs.push((guid, npc)),
            index: v.index.push((npc.id, seq![])),
            events: v.events,
        })
    }
}

/// Adds the pair `guid`/`npc.id` to the bijection and, when that succeeds,
/// the character and its empty reverse-index entry.
fn register(
    guids: &mut BiBTreeMap<String, String>,
    npcs: &mut Vec<(String, NPC)>,
    index: &mut Vec<(String, Vec<String>)>,
    guid: String,
    npc: NPC,
) -> (r: bool)
    requires
        npcs_wf(guid_pairs(*old(guids)), npcs_view(old(npcs)@), index_view(old(index)@)),
        !guid_pairs(*old(guids)).contains_key(guid@),
    ensures
        r == !has_npc_id(guid_pairs(*old(guids)), npc@.id),
        r ==> guid_pairs(*final(guids)) == guid_pairs(*old(guids)).insert(guid@, npc@.id),
        r ==> npcs_view(final(npcs)@) == npcs_view(old(npcs)@).push((guid@, npc@)),
        r ==> index_view(final(index)@) == index_view(old(index)@).push((npc@.id, Seq::<Seq<char>>::empty())),
        !r ==> guid_pairs(*final(guids)) == guid_pairs(*old(guids)) && final(npcs)@ == old(npcs)@ && final(index)@ == old(index)@,
        npcs_wf(guid_pairs(*final(guids)), npcs_view(final(npcs)@), index_view(final(index)@)),
{
    let id = npc.id.clone();
    if !insert_pair(guids, guid.clone(), npc.id.clone()) {
        proof {
            if has_npc_id(guid_pairs(*old(guids)), npc@.id) {
                let g = choose|g: Seq<char>| #[trigger] guid_pairs(*old(guids)).contains_key(g) && guid_pairs(*old(guids))[g] == npc@.id;
            }
        }
        return false;
    }
    let ghost v0 = AppView { guids: guid_pairs(*old(guids)), npcs: npcs_view(old(npcs)@), index: index_view(old(index)@), events: seq![] };
    assert(npcs_wf(v0.guids, v0.npcs, v0.index));
    index.push((id, Vec::new()));
    npcs.push((guid, npc));
    proof {
        let v = AppView { guids: guid_pairs(*guids), npcs: npcs_view(npcs@), index: index_view(index@), events: seq![] };
        assert(v.npcs =~= v0.npcs.push((guid@, npc@)));
        assert(texts_view(Seq::<String>::empty()) =~= Seq::<Seq<char>>::empty());
        assert(v.index =~= v0.index.push((npc@.id, seq![])));
        assert forall|g: Seq<char>| #[trigger] v.guids.contains_key(g) implies exists|i: int| 0 <= i < v.npcs.len() && #[trigger] v.npcs[i].0 == g by {
            if g == guid@ {
                assert(v.npcs[v0.npcs.len() as int].0 == g);
            } else {
                assert(v0.guids.contains_key(g));
                let i = choose|i: int| 0 <= i < v0.npcs.len() && #[trigger] v0.npcs[i].0 == g;
                assert(v.npcs[i].0 == g);
            }
        }
        assert forall|i: int, j: int| 0 <= i < v.index.len() && 0 <= j < v.index.len() && i != j implies #[trigger] v.index[i].0 != #[trigger] v.index[j].0 by {
            if i < v0.index.len() && j < v0.index.len() {
            } else if i < v0.index.len() {
                assert(v0.guids.contains_key(v0.npcs[i].0));
            } else {
                assert(v0.guids.contains_key(v0.npcs[j].0));
            }
        }
        assert(npcs_wf(v.guids, v.npcs, v.index));
    }
    true
}

impl App {
    /// An empty store.
    pub fn new() -> (r: App)
        ensures
            app_wf(r@),
            r@.guids == Map::<Seq<char>, Seq<char>>::empty(),
            r@.npcs.len() == 0,
            r@.index.len() == 0,
            r@.events.len() == 0,
    {
        App { npc_guids: new_guid_map(), npc_map: Vec::new(), npc_events: Vec::new(), event_map: Vec::new() }
    }

    /// Registers a decoded character under the opaque identifier read from
    /// its sidecar; fails, leaving the store as it was, when the identifier
    /// or the character id is already registered.
    pub fn add_npc(&mut self, guid: String, npc: NPC) -> (r: Result<(), YamlError>)
        ensures
            app_wf(final(self)@),
            match r {
                Ok(()) => spec_add_npc(old(self)@, guid@, npc@) == Ok::<AppView, ErrView>(final(self)@),
                Err(e) => spec_add_npc(old(self)@, guid@, npc@) == Err::<AppView, ErrView>(e@) && final(self)@ == old(self)@,
            },
    {
        proof {
            use_type_invariant(&*self);
        }
        if right_of(&self.npc_guids, &guid).is_some() {
            return Err(YamlError::with(ErrorKind::DuplicateGuid, None, guid.as_str()));
        }
        let id = npc.id.clone();
        let mut cur = App::new();
        std::mem::swap(self, &mut cur);
        proof {
            use_type_invariant(&cur);
        }
        let App { mut npc_guids, mut npc_map, mut npc_events, event_map } = cur;
        let ghost g0 = guid_pairs(npc_guids);
        let ghost ix0 = index_view(npc_events@);
        let ghost key = guid@;
        let ghost nid = npc@.id;
        let added = register(&mut npc_guids, &mut npc_map, &mut npc_events, guid, npc);
        proof {
            if added {
                links_register(g0, ix0, events_view(event_map@), key, nid);
            }
        }
        *self = App { npc_guids, npc_map, npc_events, event_map };
        if !added {
            return Err(YamlError::with(ErrorKind::DuplicateNpcId, None, id.as_str()));
        }
        Ok(())
    }
}

proof fn links_register(
    guids: Map<Seq<char>, Seq<char>>,
    index: Seq<(Seq<char>, Seq<Seq<char>>)>,
    events: Seq<EventView>,
    guid: Seq<char>,
    id: Seq<char>,
)
    requires
        links_wf(guids, index, events),
        !guids.contains_key(guid),
    ensures
        links_wf(guids.insert(guid, id), index.push((id, Seq::<Seq<char>>::empty())), events),
{
    let ix2 = index.push((id, Seq::<Seq<char>>::empty()));
    let g2 = guids.insert(guid, id);
    assert forall|k: int| #![trigger events[k]] 0 <= k < events.len() implies g2.contains_key(events[k].event.npc_guid)
        && g2[events[k].event.npc_guid] == events[k].npc_id by {
        assert(guids.contains_key(events[k].event.npc_guid));
    }
    assert forall|k: int| #![trigger events[k]] 0 <= k < events.len() implies listed(ix2, events[k].npc_id, events[k].event.id) by {
        let j = choose|j: int| 0 <= j < index.len() && #[trigger] index[j].0 == events[k].npc_id && index[j].1.contains(events[k].event.id);
        assert(ix2[j] == index[j]);
    }
    assert forall|j: int, t: Seq<char>| #![trigger ix2[j].1.contains(t)] 0 <= j < ix2.len() && ix2[j].1.contains(t)
        implies exists|k: int| #![trigger events[k]] 0 <= k < events.len() && events[k].event.id == t by {
        if j < index.len() {
            assert(ix2[j] == index[j]);
            assert(index[j].1.contains(t));
        }
    }
}

/// Registering two characters under the same opaque identifier never
/// succeeds twice: when the first registration succeeds, the second fails
/// with a duplicate-identifier error naming it.
pub proof fn duplicate_guid_rejected(v: AppView, guid: Seq<char>, a: NpcView, b: NpcView)
    ensures
        spec_add_npc(v, guid, a) matches Ok(w) ==> spec_add_npc(w, guid, b) == Err::<AppView, ErrView>(
            (ErrorKind::DuplicateGuid, None, guid),
        ),
{
}

/// Reading the opaque identifier out of a sidecar document: its root is a
/// struct with a `guid` text.
pub open spec fn spec_meta_guid(root: Field) -> Result<Seq<char>, ErrView> {
    match root {
        Field::Struct(m) => spec_get_str(m@, "guid"@, None),
        _ => Err((ErrorKind::NotA(FieldKind::Struct), None, seq![])),
    }
}

/// Reads the opaque identifier out of a parsed sidecar document.
pub fn meta_guid(root: &Field) -> (r: Result<String, YamlError>)
    ensures
        res_view(r) == spec_meta_guid(*root),
{
    match root {
        Field::Struct(m) => {
            let g = get_str(m, "guid", None)?;
            Ok(g.clone())
        },
        _ => Err(YamlError::not_a(FieldKind::Struct)),
    }
}

/// The event records of an events document: its root is a struct whose
/// `MonoBehaviour` struct holds them as the list `data`.
pub open spec fn spec_event_list(root: Field) -> Result<Seq<Field>, ErrView> {
    match root {
        Field::Struct(m) => match spec_get_struct(m@, "MonoBehaviour"@, None) {
            Err(e) => Err(e),
            Ok(mb) => spec_get_list(mb, "data"@, None),
        },
        _ => Err((ErrorKind::NotA(FieldKind::Struct), None, seq![])),
    }
}

fn event_list(root: &Field) -> (r: Result<&Vec<Field>, YamlError>)
    ensures
        match r {
            Ok(l) => spec_event_list(*root) == Ok::<Seq<Field>, ErrView>(l@),
            Err(e) => spec_event_list(*root) == Err::<Seq<Field>, ErrView>(e@),
        },
{
    match root {
        Field::Struct(m) => {
            let mb = get_struct(m, "MonoBehaviour", None)?;
            get_list(mb, "data", None)
        },
        _ => Err(YamlError::not_a(FieldKind::Struct)),
    }
}

/// Decoding event records one after the other; the first one that fails
/// decides the error.
pub open spec fn spec_events(fs: Seq<Field>) -> Result<Seq<RawEventView>, ErrView>
    decreases fs.len(),
{
    if fs.len() == 0 {
        Ok(seq![])
    } else {
        match spec_events(fs.drop_last()) {
            Err(e) => Err(e),
            Ok(evs) => match spec_event(fs.last()) {
                Err(e) => Err(e),
                Ok(ev) => Ok(evs.push(ev)),
            },
        }
    }
}

proof fn events_error_prefix(fs: Seq<Field>, k: int)
    requires
        0 <= k <= fs.len(),
        spec_events(fs.take(k)) is Err,
    ensures
        spec_events(fs) == spec_events(fs.take(k)),
    decreases fs.len(),
{
    if k == fs.len() {
        assert(fs.take(k) =~= fs);
    } else {
        assert(fs.drop_last().take(k) =~= fs.take(k));
        events_error_prefix(fs.drop_last(), k);
    }
}

pub open spec fn raw_events_view(evs: Seq<RawEvent>) -> Seq<RawEventView> {
    evs.map_values(|e: RawEvent| e@)
}

/// Decoding every event record of an events document.
pub open spec fn spec_document_events(root: Field) -> Result<Seq<RawEventView>, ErrView> {
    match spec_event_list(root) {
        Err(e) => Err(e),
        Ok(fs) => spec_events(fs),
    }
}

/// Decodes every event of a parsed events document, without linking them
/// to characters; the first record that fails aborts the whole decode.
pub fn events_of_document(root: &Field) -> (r: Result<Vec<RawEvent>, YamlError>)
    ensures
        match r {
            Ok(evs) => spec_document_events(*root) == Ok::<Seq<RawEventView>, ErrView>(raw_events_view(evs@)),
            Err(e) => spec_document_events(*root) == Err::<Seq<RawEventView>, ErrView>(e@),
        },
{
    let fs = event_list(root)?;
    let mut out: Vec<RawEvent> = Vec::new();
    let mut i: usize = 0;
    assert(fs@.take(0) =~= Seq::<Field>::empty());
    assert(raw_events_view(out@) =~= Seq::<RawEventView>::empty());
    while i < fs.len()
        invariant
            0 <= i <= fs@.len(),
            spec_events(fs@.take(i as int)) == Ok::<Seq<RawEventView>, ErrView>(raw_events_view(out@)),
            spec_event_list(*root) == Ok::<Seq<Field>, ErrView>(fs@),
        decreases fs@.len() - i,
    {
        assert(fs@.take(i as int + 1).drop_last() =~= fs@.take(i as int));
        assert(fs@.take(i as int + 1).last() == fs@[i as int]);
        match RawEvent::from_field(&fs[i]) {
            Ok(ev) => {
                let ghost before = out@;
                let ghost evv = ev@;
                out.push(ev);
                assert(raw_events_view(out@) =~= raw_events_view(before).push(evv));
            },
            Err(e) => {
                proof {
                    assert(spec_events(fs@.take(i as int + 1)) == Err::<Seq<RawEventView>, ErrView>(e@));
                    events_error_prefix(fs@, i as int + 1);
                }
                return Err(e);
            },
        }
        i = i + 1;
    }
    assert(fs@.take(i as int) =~= fs@);
    Ok(out)
}


/// A sorted set of ids after adding `t`: unchanged when `t` is already
/// there, otherwise `t` is inserted at its slot.
pub open spec fn ids_add(ids: Seq<Seq<char>>, t: Seq<char>) -> Seq<Seq<char>> {
    if ids.contains(t) {
        ids
    } else {
        ids.insert(choose|p: int| slot_of(ids, t, p), t)
    }
}

/// The reverse index after recording event `eid` for character `npc_id`:
/// the id joins that character's set of event ids.
pub open spec fn index_add(ix: Seq<(Seq<char>, Seq<Seq<char>>)>, npc_id: Seq<char>, eid: Seq<char>) -> Seq<(Seq<char>, Seq<Seq<char>>)> {
    ix.map_values(
        |p: (Seq<char>, Seq<Seq<char>>)|
            if p.0 == npc_id {
                (p.0, ids_add(p.1, eid))
            } else {
                p
            },
    )
}

/// The events after storing `ev`: it replaces the event with the same id,
/// or is inserted where its id belongs in the order of ids.
pub open spec fn put_event(evs: Seq<EventView>, ev: EventView) -> Seq<EventView> {
    if exists|i: int| 0 <= i < evs.len() && #[trigger] evs[i].event.id == ev.event.id {
        evs.update(choose|i: int| 0 <= i < evs.len() && #[trigger] evs[i].event.id == ev.event.id, ev)
    } else {
        evs.insert(choose|p: int| slot_of(event_keys(evs), ev.event.id, p), ev)
    }
}

proof fn ids_add_contents(ids: Seq<Seq<char>>, t: Seq<char>)
    requires
        texts_sorted(ids),
    ensures
        forall|u: Seq<char>| #[trigger] ids_add(ids, t).contains(u) <==> ids.contains(u) || u == t,
{
    if !ids.contains(t) {
        slot_exists(ids, t);
        let p = choose|p: int| slot_of(ids, t, p);
        let r = ids.insert(p, t);
        assert forall|u: Seq<char>| #[trigger] r.contains(u) <==> ids.contains(u) || u == t by {
            if r.contains(u) {
                let k = choose|k: int| 0 <= k < r.len() && r[k] == u;
                if k < p {
                    assert(ids[k] == u);
                } else if k > p {
                    assert(ids[k - 1] == u);
                }
            }
            if ids.contains(u) {
                let k = choose|k: int| 0 <= k < ids.len() && ids[k] == u;
                if k < p {
                    assert(r[k] == u);
                } else {
                    assert(r[k + 1] == u);
                }
            }
            if u == t {
                assert(r[p] == u);
            }
        }
    }
}

proof fn put_event_members(evs: Seq<EventView>, ev: EventView)
    requires
        events_sorted(evs),
    ensures
        forall|k: int| 0 <= k < put_event(evs, ev).len() ==> #[trigger] put_event(evs, ev)[k] == ev || exists|j: int| 0 <= j < evs.len() && put_event(evs, ev)[k] == #[trigger] evs[j],
        exists|k: int| 0 <= k < put_event(evs, ev).len() && #[trigger] put_event(evs, ev)[k] == ev,
        forall|j: int| 0 <= j < evs.len() && #[trigger] evs[j].event.id != ev.event.id ==> exists|k: int| 0 <= k < put_event(evs, ev).len() && put_event(evs, ev)[k] == evs[j],
{
    let r = put_event(evs, ev);
    if exists|i: int| 0 <= i < evs.len() && #[trigger] evs[i].event.id == ev.event.id {
        let i = choose|i: int| 0 <= i < evs.len() && #[trigger] evs[i].event.id == ev.event.id;
        assert(r == evs.update(i, ev));
        assert(r[i] == ev);
        assert forall|k: int| 0 <= k < r.len() implies #[trigger] r[k] == ev || exists|j: int| 0 <= j < evs.len() && r[k] == #[trigger] evs[j] by {
            if k != i {
                assert(r[k] == evs[k]);
            }
        }
        assert forall|j: int| 0 <= j < evs.len() && #[trigger] evs[j].event.id != ev.event.id implies exists|k: int| 0 <= k < r.len() && r[k] == evs[j] by {
            assert(r[j] == evs[j]);
        }
    } else {
        let keys = event_keys(evs);
        assert(!keys.contains(ev.event.id)) by {
            if keys.contains(ev.event.id) {
                let k = choose|k: int| 0 <= k < keys.len() && keys[k] == ev.event.id;
                assert(evs[k].event.id == ev.event.id);
            }
        }
        slot_exists(keys, ev.event.id);
        let p = choose|p: int| slot_of(keys, ev.event.id, p);
        assert(r == evs.insert(p, ev));
        assert(r[p] == ev);
        assert forall|k: int| 0 <= k < r.len() implies #[trigger] r[k] == ev || exists|j: int| 0 <= j < evs.len() && r[k] == #[trigger] evs[j] by {
            if k < p {
                assert(r[k] == evs[k]);
            } else if k > p {
                assert(r[k] == evs[k - 1]);
            }
        }
        assert forall|j: int| 0 <= j < evs.len() && #[trigger] evs[j].event.id != ev.event.id implies exists|k: int| 0 <= k < r.len() && r[k] == evs[j] by {
            if j < p {
                assert(r[j] == evs[j]);
            } else {
                assert(r[j + 1] == evs[j]);
            }
        }
    }
}

/// Linking one more event keeps the events consistent with the bijection
/// and the reverse index.
proof fn link_step(
    guids: Map<Seq<char>, Seq<char>>,
    npcs: Seq<(Seq<char>, NpcView)>,
    index0: Seq<(Seq<char>, Seq<Seq<char>>)>,
    ix: Seq<(Seq<char>, Seq<Seq<char>>)>,
    evs: Seq<EventView>,
    raw: RawEventView,
)
    requires
        npcs_wf(guids, npcs, index0),
        ix.len() == index0.len(),
        forall|j: int| 0 <= j < index0.len() ==> #[trigger] ix[j].0 == index0[j].0,
        forall|j: int| 0 <= j < ix.len() ==> texts_sorted(#[trigger] ix[j].1),
        events_sorted(evs),
        links_wf(guids, ix, evs),
        guids.contains_key(raw.npc_guid),
    ensures
        links_wf(
            guids,
            index_add(ix, guids[raw.npc_guid], raw.id),
            put_event(evs, EventView { npc_id: guids[raw.npc_guid], event: raw }),
        ),
{
    let nid = guids[raw.npc_guid];
    let ev = EventView { npc_id: nid, event: raw };
    let ix2 = index_add(ix, nid, raw.id);
    let r = put_event(evs, ev);
    put_event_members(evs, ev);
    assert forall|j: int, u: Seq<char>| 0 <= j < ix.len() implies #[trigger] ix2[j].1.contains(u) <==> (ix[j].1.contains(u) || (ix[j].0 == nid && u == raw.id)) by {
        if ix[j].0 == nid {
            ids_add_contents(ix[j].1, raw.id);
        }
    }
    let i = choose|i: int| 0 <= i < npcs.len() && #[trigger] npcs[i].0 == raw.npc_guid;
    assert(index0[i].0 == npcs[i].1.id);
    assert(ix2[i].0 == nid);
    assert(ix2[i].1.contains(raw.id));
    assert forall|k: int| #![trigger r[k]] 0 <= k < r.len() implies guids.contains_key(r[k].event.npc_guid)
        && guids[r[k].event.npc_guid] == r[k].npc_id by {
        if r[k] != ev {
            let j = choose|j: int| 0 <= j < evs.len() && r[k] == #[trigger] evs[j];
        }
    }
    assert forall|k: int| #![trigger r[k]] 0 <= k < r.len() implies listed(ix2, r[k].npc_id, r[k].event.id) by {
        if r[k] == ev {
            assert(ix2[i].0 == r[k].npc_id);
        } else {
            let j = choose|j: int| 0 <= j < evs.len() && r[k] == #[trigger] evs[j];
            assert(listed(ix, evs[j].npc_id, evs[j].event.id));
            let jj = choose|jj: int| 0 <= jj < ix.len() && #[trigger] ix[jj].0 == evs[j].npc_id && ix[jj].1.contains(evs[j].event.id);
            assert(ix2[jj].1.contains(evs[j].event.id));
            assert(ix2[jj].0 == r[k].npc_id);
        }
    }
    assert forall|j: int, t: Seq<char>| #![trigger ix2[j].1.contains(t)] 0 <= j < ix2.len() && ix2[j].1.contains(t)
        implies exists|k: int| #![trigger r[k]] 0 <= k < r.len() && r[k].event.id == t by {
        let kev = choose|k: int| 0 <= k < r.len() && #[trigger] r[k] == ev;
        if ix[j].1.contains(t) {
            let k = choose|k: int| #![trigger evs[k]] 0 <= k < evs.len() && evs[k].event.id == t;
            if t == raw.id {
                assert(r[kev].event.id == t);
            } else {
                let k2 = choose|k2: int| 0 <= k2 < r.len() && r[k2] == evs[k];
                assert(r[k2].event.id == t);
            }
        } else {
            assert(r[kev].event.id == t);
        }
    }
}

/// Decoding and linking event records one after the other, starting from
/// the reverse index `ix` and no events: each event's opaque identifier must
/// be in the bijection `guids`; the first failure decides the error.
pub open spec fn spec_link(
    guids: Map<Seq<char>, Seq<char>>,
    ix: Seq<(Seq<char>, Seq<Seq<char>>)>,
    fs: Seq<Field>,
) -> Result<(Seq<(Seq<char>, Seq<Seq<char>>)>, Seq<EventView>), ErrView>
    decreases fs.len(),
{
    if fs.len() == 0 {
        Ok((ix, seq![]))
    } else {
        match spec_link(guids, ix, fs.drop_last()) {
            Err(e) => Err(e),
            Ok(acc) => match spec_event(fs.last()) {
                Err(e) => Err(e),
                Ok(raw) => if guids.contains_key(raw.npc_guid) {
                    let npc_id = guids[raw.npc_guid];
                    Ok((index_add(acc.0, npc_id, raw.id), put_event(acc.1, EventView { npc_id, event: raw })))
                } else {
                    Err((ErrorKind::UnknownGuid, Some(raw.id), raw.npc_guid))
                },
            },
        }
    }
}

/// The reverse index with every entry emptied.
pub open spec fn cleared(ix: Seq<(Seq<char>, Seq<Seq<char>>)>) -> Seq<(Seq<char>, Seq<Seq<char>>)> {
    ix.map_values(|p: (Seq<char>, Seq<Seq<char>>)| (p.0, Seq::<Seq<char>>::empty()))
}

/// Loading an events document into a store: the store's events become the
/// linked events of the document, and each reverse-index entry lists the
/// ids of exactly those events that reference its character.
pub open spec fn spec_parse_events(v: AppView, root: Field) -> Result<AppView, ErrView> {
    match spec_event_list(root) {
        Err(e) => Err(e),
        Ok(fs) => match spec_link(v.guids, cleared(v.index), fs) {
            Err(e) => Err(e),
            Ok(acc) => Ok(AppView { index: acc.0, events: acc.1, ..v }),
        },
    }
}

proof fn link_error_prefix(guids: Map<Seq<char>, Seq<char>>, ix: Seq<(Seq<char>, Seq<Seq<char>>)>, fs: Seq<Field>, k: int)
    requires
        0 <= k <= fs.len(),
        spec_link(guids, ix, fs.take(k)) is Err,
    ensures
        spec_link(guids, ix, fs) == spec_link(guids, ix, fs.take(k)),
    decreases fs.len(),
{
    if k == fs.len() {
        assert(fs.take(k) =~= fs);
    } else {
        assert(fs.drop_last().take(k) =~= fs.take(k));
        link_error_prefix(guids, ix, fs.drop_last(), k);
    }
}

fn clear_index(ix: &Vec<(String, Vec<String>)>) -> (r: Vec<(String, Vec<String>)>)
    ensures
        index_view(r@) == cleared(index_view(ix@)),
{
    let mut out: Vec<(String, Vec<String>)> = Vec::new();
    let mut i: usize = 0;
    while i < ix.len()
        invariant
            0 <= i <= ix@.len(),
            index_view(out@) =~= cleared(index_view(ix@.take(i as int))),
        decreases ix@.len() - i,
    {
        let ghost before = out@;
        let entry = (ix[i].0.clone(), Vec::new());
        out.push(entry);
        assert(texts_view(Seq::<String>::empty()) =~= Seq::<Seq<char>>::empty());
        assert(index_view(out@) =~= index_view(before).push((ix@[i as int].0@, Seq::<Seq<char>>::empty())));
        assert(ix@.take(i as int + 1) =~= ix@.take(i as int).push(ix@[i as int]));
        assert(cleared(index_view(ix@.take(i as int + 1))) =~= cleared(index_view(ix@.take(i as int))).push((ix@[i as int].0@, Seq::<Seq<char>>::empty())));
        i = i + 1;
    }
    assert(ix@.take(i as int) =~= ix@);
    out
}

fn insert_id(v: &mut Vec<String>, t: &String)
    requires
        texts_sorted(texts_view(old(v)@)),
    ensures
        texts_view(final(v)@) == ids_add(texts_view(old(v)@), t@),
        texts_sorted(texts_view(final(v)@)),
{
    let ghost ids = texts_view(v@);
    let mut i: usize = 0;
    while i < v.len()
        invariant
            0 <= i <= v@.len(),
            v@ == old(v)@,
            ids == texts_view(v@),
            texts_sorted(ids),
            forall|k: int| 0 <= k < i ==> text_lt(#[trigger] ids[k], t@),
        decreases v@.len() - i,
    {
        if v[i] == *t {
            assert(ids[i as int] == t@);
            return;
        }
        if text_less(t.as_str(), v[i].as_str()) {
            proof {
                assert forall|k: int| i <= k < ids.len() implies text_lt(t@, #[trigger] ids[k]) by {
                    if k > i {
                        crate::text::text_lt_transitive(t@, ids[i as int], ids[k]);
                    }
                }
                assert(slot_of(ids, t@, i as int));
                let p = choose|p: int| slot_of(ids, t@, p);
                slot_unique(ids, t@, p, i as int);
                text_lt_irreflexive(t@);
                assert(!ids.contains(t@));
                slot_insert_sorted(ids, t@, i as int);
            }
            v.insert(i, t.clone());
            assert(texts_view(v@) =~= ids.insert(i as int, t@));
            return;
        }
        proof {
            text_lt_total(ids[i as int], t@);
        }
        i = i + 1;
    }
    proof {
        assert(slot_of(ids, t@, ids.len() as int));
        let p = choose|p: int| slot_of(ids, t@, p);
        slot_unique(ids, t@, p, ids.len() as int);
        text_lt_irreflexive(t@);
        assert(!ids.contains(t@));
        slot_insert_sorted(ids, t@, ids.len() as int);
    }
    v.push(t.clone());
    assert(texts_view(v@) =~= ids.insert(ids.len() as int, t@));
}

fn add_to_index(ix: &mut Vec<(String, Vec<String>)>, npc_id: &String, eid: &String)
    requires
        forall|j: int| 0 <= j < index_view(old(ix)@).len() ==> texts_sorted(#[trigger] index_view(old(ix)@)[j].1),
    ensures
        index_view(final(ix)@) == index_add(index_view(old(ix)@), npc_id@, eid@),
        forall|j: int| 0 <= j < index_view(final(ix)@).len() ==> texts_sorted(#[trigger] index_view(final(ix)@)[j].1),
{
    let ghost target = index_add(index_view(old(ix)@), npc_id@, eid@);
    let mut k: usize = 0;
    while k < ix.len()
        invariant
            0 <= k <= ix@.len(),
            ix@.len() == old(ix)@.len(),
            target == index_add(index_view(old(ix)@), npc_id@, eid@),
            forall|j: int| 0 <= j < k ==> #[trigger] index_view(ix@)[j] == target[j],
            forall|j: int| k <= j < ix@.len() ==> #[trigger] ix@[j] == old(ix)@[j],
            forall|j: int| 0 <= j < index_view(old(ix)@).len() ==> texts_sorted(#[trigger] index_view(old(ix)@)[j].1),
            forall|j: int| 0 <= j < k ==> texts_sorted(#[trigger] index_view(ix@)[j].1),
        decreases ix@.len() - k,
    {
        let ghost before = ix@;
        if ix[k].0 == *npc_id {
            assert(index_view(old(ix)@)[k as int].1 == texts_view(before[k as int].1@));
            insert_id(&mut ix[k].1, eid);
            assert(forall|j: int| 0 <= j < ix@.len() && j != k ==> ix@[j] == before[j]);
            assert(index_view(ix@)[k as int] == target[k as int]);
            assert forall|j: int| 0 <= j < k implies #[trigger] index_view(ix@)[j] == target[j] && texts_sorted(index_view(ix@)[j].1) by {
                assert(ix@[j] == before[j]);
                assert(index_view(before)[j] == target[j]);
                assert(index_view(before)[j] == index_view(ix@)[j]);
            }
        } else {
            assert(index_view(ix@)[k as int] == target[k as int]);
            assert(index_view(ix@)[k as int] == index_view(old(ix)@)[k as int]);
        }
        k = k + 1;
    }
    assert(index_view(ix@) =~= target);
}

fn store_event(evs: &mut Vec<Event>, ev: Event)
    requires
        events_sorted(events_view(old(evs)@)),
    ensures
        events_view(final(evs)@) == put_event(events_view(old(evs)@), ev@),
        events_sorted(events_view(final(evs)@)),
{
    let ghost old_v = events_view(evs@);
    let ghost keys = event_keys(old_v);
    let ghost evv = ev@;
    let ghost t = ev@.event.id;
    let mut i: usize = 0;
    while i < evs.len()
        invariant
            0 <= i <= evs@.len(),
            evs@ == old(evs)@,
            old_v == events_view(evs@),
            keys == event_keys(old_v),
            evv == ev@,
            t == evv.event.id,
            texts_sorted(keys),
            forall|k: int| 0 <= k < i ==> text_lt(#[trigger] keys[k], t),
        decreases evs@.len() - i,
    {
        assert(keys[i as int] == evs@[i as int].event.id@);
        if evs[i].event.id == ev.event.id {
            proof {
                assert(old_v[i as int].event.id == t);
                let c = choose|j: int| 0 <= j < old_v.len() && #[trigger] old_v[j].event.id == t;
                if c != i {
                    assert(keys[c] == t);
                    if c < i {
                        text_lt_irreflexive(t);
                    } else {
                        assert(text_lt(keys[i as int], keys[c]));
                        text_lt_irreflexive(t);
                    }
                }
            }
            evs[i] = ev;
            assert(events_view(evs@) =~= old_v.update(i as int, evv));
            assert(event_keys(events_view(evs@)) =~= keys);
            return;
        }
        if text_less(ev.event.id.as_str(), evs[i].event.id.as_str()) {
            proof {
                assert forall|k: int| i <= k < keys.len() implies text_lt(t, #[trigger] keys[k]) by {
                    if k > i {
                        crate::text::text_lt_transitive(t, keys[i as int], keys[k]);
                    }
                }
                assert(slot_of(keys, t, i as int));
                let p = choose|p: int| slot_of(keys, t, p);
                slot_unique(keys, t, p, i as int);
                text_lt_irreflexive(t);
                assert forall|j: int| 0 <= j < old_v.len() implies #[trigger] old_v[j].event.id != t by {
                    assert(keys[j] == old_v[j].event.id);
                }
                slot_insert_sorted(keys, t, i as int);
            }
            evs.insert(i, ev);
            assert(events_view(evs@) =~= old_v.insert(i as int, evv));
            assert(event_keys(events_view(evs@)) =~= keys.insert(i as int, t));
            return;
        }
        proof {
            text_lt_total(keys[i as int], t);
        }
        i = i + 1;
    }
    proof {
        assert(slot_of(keys, t, keys.len() as int));
        let p = choose|p: int| slot_of(keys, t, p);
        slot_unique(keys, t, p, keys.len() as int);
        text_lt_irreflexive(t);
        assert forall|j: int| 0 <= j < old_v.len() implies #[trigger] old_v[j].event.id != t by {
            assert(keys[j] == old_v[j].event.id);
        }
        slot_insert_sorted(keys, t, keys.len() as int);
    }
    evs.push(ev);
    assert(events_view(evs@) =~= old_v.insert(old_v.len() as int, evv));
    assert(event_keys(events_view(evs@)) =~= keys.insert(keys.len() as int, t));
}

impl App {
    /// Decodes the events of a parsed events document and links each one to
    /// the character whose opaque identifier it names, recording its id in
    /// that character's reverse-index entry. All or nothing: on any failure
    /// (a record that does not decode, an unknown identifier) the store is
    /// left as it was.
    pub fn parse_event_data(&mut self, root: &Field) -> (r: Result<(), YamlError>)
        ensures
            app_wf(final(self)@),
            match r {
                Ok(()) => spec_parse_events(old(self)@, *root) == Ok::<AppView, ErrView>(final(self)@),
                Err(e) => spec_parse_events(old(self)@, *root) == Err::<AppView, ErrView>(e@) && final(self)@ == old(self)@,
            },
    {
        proof {
            use_type_invariant(&*self);
        }
        let fs = event_list(root)?;
        let ghost v0 = self@;
        let mut ix = clear_index(&self.npc_events);
        assert forall|j: int, t: Seq<char>| 0 <= j < index_view(ix@).len() implies !#[trigger] index_view(ix@)[j].1.contains(t) by {
            assert(index_view(ix@)[j].1 == Seq::<Seq<char>>::empty());
        }
        let mut evs: Vec<Event> = Vec::new();
        let mut i: usize = 0;
        assert(fs@.take(0) =~= Seq::<Field>::empty());
        assert(events_view(evs@) =~= Seq::<EventView>::empty());
        while i < fs.len()
            invariant
                0 <= i <= fs@.len(),
                self@ == v0,
                app_wf(v0),
                spec_event_list(*root) == Ok::<Seq<Field>, ErrView>(fs@),
                spec_link(v0.guids, cleared(v0.index), fs@.take(i as int)) == Ok::<(Seq<(Seq<char>, Seq<Seq<char>>)>, Seq<EventView>), ErrView>((index_view(ix@), events_view(evs@))),
                events_sorted(events_view(evs@)),
                forall|j: int| 0 <= j < index_view(ix@).len() ==> texts_sorted(#[trigger] index_view(ix@)[j].1),
                links_wf(v0.guids, index_view(ix@), events_view(evs@)),
                index_view(ix@).len() == v0.index.len(),
                forall|j: int| 0 <= j < v0.index.len() ==> #[trigger] index_view(ix@)[j].0 == v0.index[j].0,
            decreases fs@.len() - i,
        {
            assert(fs@.take(i as int + 1).drop_last() =~= fs@.take(i as int));
            assert(fs@.take(i as int + 1).last() == fs@[i as int]);
            let raw = match RawEvent::from_field(&fs[i]) {
                Ok(raw) => raw,
                Err(e) => {
                    proof {
                        assert(spec_link(v0.guids, cleared(v0.index), fs@.take(i as int + 1)) == Err::<(Seq<(Seq<char>, Seq<Seq<char>>)>, Seq<EventView>), ErrView>(e@));
                        link_error_prefix(v0.guids, cleared(v0.index), fs@, i as int + 1);
                    }
                    return Err(e);
                },
            };
            match right_of(&self.npc_guids, &raw.npc_guid) {
                None => {
                    let e = YamlError::with(ErrorKind::UnknownGuid, Some(&raw.id), raw.npc_guid.as_str());
                    proof {
                        assert(spec_link(v0.guids, cleared(v0.index), fs@.take(i as int + 1)) == Err::<(Seq<(Seq<char>, Seq<Seq<char>>)>, Seq<EventView>), ErrView>(e@));
                        link_error_prefix(v0.guids, cleared(v0.index), fs@, i as int + 1);
                    }
                    return Err(e);
                },
                Some(npc_id) => {
                    proof {
                        link_step(v0.guids, v0.npcs, v0.index, index_view(ix@), events_view(evs@), raw@);
                    }
                    let ghost ix0 = index_view(ix@);
                    add_to_index(&mut ix, &npc_id, &raw.id);
                    assert forall|j: int| 0 <= j < v0.index.len() implies #[trigger] index_view(ix@)[j].0 == v0.index[j].0 by {
                        assert(index_view(ix@)[j].0 == ix0[j].0);
                    }
                    store_event(&mut evs, Event { npc_id, event: raw });
                },
            }
            i = i + 1;
        }
        assert(fs@.take(i as int) =~= fs@);
        let mut cur = App::new();
        std::mem::swap(self, &mut cur);
        proof {
            use_type_invariant(&cur);
        }
        let App { npc_guids, npc_map, npc_events: _, event_map: _ } = cur;
        *self = App { npc_guids, npc_map, npc_events: ix, event_map: evs };
        Ok(())
    }
}


proof fn link_fails_from(guids: Map<Seq<char>, Seq<char>>, ix: Seq<(Seq<char>, Seq<Seq<char>>)>, fs: Seq<Field>, k: int, n: int)
    requires
        0 <= k < n <= fs.len(),
        spec_event(fs[k]) matches Ok(raw) && !guids.contains_key(raw.npc_guid),
    ensures
        spec_link(guids, ix, fs.take(n)) is Err,
    decreases n,
{
    assert(fs.take(n).drop_last() =~= fs.take(n - 1));
    if n - 1 == k {
        assert(fs.take(n).last() == fs[k]);
    } else {
        link_fails_from(guids, ix, fs, k, n - 1);
    }
}

/// An events document in which some event names an opaque identifier that
/// the store does not know never loads: the whole load fails, so no
/// partial set of events is produced.
pub proof fn unknown_guid_fails(v: AppView, root: Field, k: int)
    requires
        spec_event_list(root) matches Ok(fs) && 0 <= k < fs.len() && (spec_event(fs[k]) matches Ok(raw)
            && !v.guids.contains_key(raw.npc_guid)),
    ensures
        spec_parse_events(v, root) is Err,
{
    let fs = spec_event_list(root)->Ok_0;
    link_fails_from(v.guids, cleared(v.index), fs, k, fs.len() as int);
    assert(fs.take(fs.len() as int) =~= fs);
}


impl App {
    /// The stored event with the given id, if any.
    pub fn event(&self, id: &String) -> (r: Option<&Event>)
        ensures
            match r {
                Some(e) => exists|i: int| 0 <= i < self@.events.len() && #[trigger] self@.events[i] == e@ && e@.event.id == id@,
                None => forall|i: int| 0 <= i < self@.events.len() ==> #[trigger] self@.events[i].event.id != id@,
            },
    {
        let mut i: usize = 0;
        while i < self.event_map.len()
            invariant
                0 <= i <= self.event_map@.len(),
                forall|k: int| 0 <= k < i ==> #[trigger] self@.events[k].event.id != id@,
            decreases self.event_map@.len() - i,
        {
            if self.event_map[i].event.id == *id {
                assert(self@.events[i as int] == self.event_map@[i as int]@);
                return Some(&self.event_map[i]);
            }
            i = i + 1;
        }
        None
    }

    /// The ids of the stored events, in store order.
    pub fn event_ids(&self) -> (r: Vec<String>)
        ensures
            texts_view(r@) == event_keys(self@.events),
            texts_sorted(texts_view(r@)),
    {
        proof {
            use_type_invariant(self);
        }
        let mut out: Vec<String> = Vec::new();
        let mut i: usize = 0;
        while i < self.event_map.len()
            invariant
                0 <= i <= self.event_map@.len(),
                texts_view(out@) =~= event_keys(self@.events.take(i as int)),
            decreases self.event_map@.len() - i,
        {
            let ghost before = out@;
            let id = self.event_map[i].event.id.clone();
            out.push(id);
            assert(texts_view(out@) =~= texts_view(before).push(self@.events[i as int].event.id));
            assert(self@.events.take(i as int + 1) =~= self@.events.take(i as int).push(self@.events[i as int]));
            i = i + 1;
        }
        assert(self@.events.take(i as int) =~= self@.events);
        assert(texts_view(out@) =~= event_keys(self@.events));
        out
    }

    /// The ids of the registered characters, in increasing order.
    pub fn npc_ids(&self) -> (r: Vec<String>)
        ensures
            texts_sorted(texts_view(r@)),
            forall|i: int| 0 <= i < r@.len() ==> has_npc_id(self@.guids, #[trigger] r@[i]@),
            forall|g: Seq<char>| #[trigger] self@.guids.contains_key(g) ==> texts_view(r@).contains(self@.guids[g]),
    {
        right_values(&self.npc_guids)
    }

    /// The registered character with the given id, found through the
    /// bijection from its opaque identifier.
    pub fn npc_by_id(&self, id: &String) -> (r: Option<&NPC>)
        ensures
            match r {
                Some(npc) => npc@.id == id@ && exists|i: int| 0 <= i < self@.npcs.len() && #[trigger] self@.npcs[i].1 == npc@,
                None => !has_npc_id(self@.guids, id@),
            },
    {
        proof {
            use_type_invariant(self);
        }
        let guid = match left_of(&self.npc_guids, id) {
            Some(g) => g,
            None => {
                proof {
                    assert forall|g: Seq<char>| #[trigger] self@.guids.contains_key(g) implies self@.guids[g] != id@ by {}
                }
                return None;
            },
        };
        let mut i: usize = 0;
        while i < self.npc_map.len()
            invariant
                0 <= i <= self.npc_map@.len(),
                app_wf(self@),
                self@.guids.contains_key(guid@) && self@.guids[guid@] == id@,
                forall|k: int| 0 <= k < i ==> #[trigger] self@.npcs[k].0 != guid@,
            decreases self.npc_map@.len() - i,
        {
            if self.npc_map[i].0 == guid {
                assert(self@.npcs[i as int] == (self.npc_map@[i as int].0@, self.npc_map@[i as int].1@));
                assert(self@.guids.contains_key(self@.npcs[i as int].0));
                return Some(&self.npc_map[i].1);
            }
            i = i + 1;
        }
        proof {
            let k = choose|k: int| 0 <= k < self@.npcs.len() && #[trigger] self@.npcs[k].0 == guid@;
            assert(false);
        }
        None
    }

    /// The ids of the events that reference the character `npc_id`, or
    /// `None` for an unknown character.
    pub fn events_of_npc(&self, npc_id: &String) -> (r: Option<&Vec<String>>)
        ensures
            match r {
                Some(ids) => exists|i: int| 0 <= i < self@.index.len() && #[trigger] self@.index[i] == (npc_id@, texts_view(ids@)),
                None => forall|i: int| 0 <= i < self@.index.len() ==> #[trigger] self@.index[i].0 != npc_id@,
            },
    {
        let mut i: usize = 0;
        while i < self.npc_events.len()
            invariant
                0 <= i <= self.npc_events@.len(),
                forall|k: int| 0 <= k < i ==> #[trigger] self@.index[k].0 != npc_id@,
            decreases self.npc_events@.len() - i,
        {
            if self.npc_events[i].0 == *npc_id {
                assert(self@.index[i as int] == (npc_id@, texts_view(self.npc_events@[i as int].1@)));
                return Some(&self.npc_events[i].1);
            }
            i = i + 1;
        }
        None
    }
}


/// A linked event as a block of labelled lines.
pub open spec fn event_text(e: EventView) -> Seq<char> {
    e.event.id + ":\n"@ + "\tNPC: "@ + e.npc_id + "\n"@ + "\tNum Concord: "@ + decimal_text(
        e.event.sequence_count as nat,
    ) + "\n"@ + "\tNum Discord: "@ + decimal_text(e.event.strike_count as nat) + "\n"@
        + "\tSequence Lengths: "@ + lengths_text(e.event.sequence_lengths) + match e.event.deck {
        Some(d) => "\n\tOverrides NPC deck with:\n"@ + deck_text(d) + "\n"@,
        None => "\n\tUses default deck for this cycle; see NPC data.\n"@,
    }
}

impl Event {
    /// The linked event as text.
    pub fn to_text(&self) -> (r: String)
        ensures
            r@ == event_text(self@),
    {
        let mut out = self.event.id.clone();
        out.append(":\n");
        out.append("\tNPC: ");
        out.append(self.npc_id.as_str());
        out.append("\n");
        out.append("\tNum Concord: ");
        let c = decimal(self.event.sequence_count as u64);
        out.append(c.as_str());
        out.append("\n");
        out.append("\tNum Discord: ");
        let k = decimal(self.event.strike_count as u64);
        out.append(k.as_str());
        out.append("\n");
        out.append("\tSequence Lengths: ");
        let l = lengths_to_text(&self.event.sequence_lengths);
        out.append(l.as_str());
        let ghost before = out@;
        match &self.event.deck {
            Some(d) => {
                out.append("\n\tOverrides NPC deck with:\n");
                let t = d.to_text();
                out.append(t.as_str());
                out.append("\n");
                assert(out@ =~= before + ("\n\tOverrides NPC deck with:\n"@ + deck_text(d@) + "\n"@));
            },
            None => {
                out.append("\n\tUses default deck for this cycle; see NPC data.\n");
            },
        }
        out
    }
}


/// Which deck of a character to show.
#[derive(Debug, Clone, Copy, PartialEq, Eq, Structural)]
pub enum DeckSubCommand {
    Deck1,
    Deck2,
    Deck3,
    Deck4,
    Deck5,
    AllDecks,
    FallbackDeck,
}

/// The cycle a choice names, if it names one.
pub open spec fn choice_cycle(c: DeckSubCommand) -> Option<usize> {
    match c {
        DeckSubCommand::Deck1 => Some(1usize),
        DeckSubCommand::Deck2 => Some(2usize),
        DeckSubCommand::Deck3 => Some(3usize),
        DeckSubCommand::Deck4 => Some(4usize),
        DeckSubCommand::Deck5 => Some(5usize),
        DeckSubCommand::AllDecks => None,
        DeckSubCommand::FallbackDeck => None,
    }
}

/// The choice that a lower-case label names.
pub open spec fn deck_choice_of(t: Seq<char>) -> Option<DeckSubCommand> {
    if t == "1"@ {
        Some(DeckSubCommand::Deck1)
    } else if t == "2"@ {
        Some(DeckSubCommand::Deck2)
    } else if t == "3"@ {
        Some(DeckSubCommand::Deck3)
    } else if t == "4"@ {
        Some(DeckSubCommand::Deck4)
    } else if t == "5"@ {
        Some(DeckSubCommand::Deck5)
    } else if t == "fallback"@ {
        Some(DeckSubCommand::FallbackDeck)
    } else if t == "all"@ {
        Some(DeckSubCommand::AllDecks)
    } else {
        None
    }
}

/// The label of a choice in a menu.
pub open spec fn choice_text(c: DeckSubCommand) -> Seq<char> {
    match c {
        DeckSubCommand::Deck1 => "1"@,
        DeckSubCommand::Deck2 => "2"@,
        DeckSubCommand::Deck3 => "3"@,
        DeckSubCommand::Deck4 => "4"@,
        DeckSubCommand::Deck5 => "5"@,
        DeckSubCommand::AllDecks => "all"@,
        DeckSubCommand::FallbackDeck => "fallback"@,
    }
}

impl DeckSubCommand {
    /// Every choice, in menu order.
    pub fn all() -> (r: Vec<DeckSubCommand>)
        ensures
            r@ == seq![
                DeckSubCommand::Deck1,
                DeckSubCommand::Deck2,
                DeckSubCommand::Deck3,
                DeckSubCommand::Deck4,
                DeckSubCommand::Deck5,
                DeckSubCommand::AllDecks,
                DeckSubCommand::FallbackDeck,
            ],
    {
        let r = vec![
            DeckSubCommand::Deck1,
            DeckSubCommand::Deck2,
            DeckSubCommand::Deck3,
            DeckSubCommand::Deck4,
            DeckSubCommand::Deck5,
            DeckSubCommand::AllDecks,
            DeckSubCommand::FallbackDeck,
        ];
        assert(r@ =~= seq![
            DeckSubCommand::Deck1,
            DeckSubCommand::Deck2,
            DeckSubCommand::Deck3,
            DeckSubCommand::Deck4,
            DeckSubCommand::Deck5,
            DeckSubCommand::AllDecks,
            DeckSubCommand::FallbackDeck,
        ]);
        r
    }

    /// The cycle this choice names: 1 to 5 for the single decks, none for
    /// all decks or the fallback deck.
    pub fn cycle(&self) -> (r: Option<usize>)
        ensures
            r == choice_cycle(*self),
    {
        match self {
            DeckSubCommand::Deck1 => Some(1),
            DeckSubCommand::Deck2 => Some(2),
            DeckSubCommand::Deck3 => Some(3),
            DeckSubCommand::Deck4 => Some(4),
            DeckSubCommand::Deck5 => Some(5),
            DeckSubCommand::FallbackDeck => None,
            DeckSubCommand::AllDecks => None,
        }
    }

    /// The menu label of this choice.
    pub fn to_text(&self) -> (r: String)
        ensures
            r@ == choice_text(*self),
    {
        let t: &str = match self {
            DeckSubCommand::Deck1 => "1",
            DeckSubCommand::Deck2 => "2",
            DeckSubCommand::Deck3 => "3",
            DeckSubCommand::Deck4 => "4",
            DeckSubCommand::Deck5 => "5",
            DeckSubCommand::AllDecks => "all",
            DeckSubCommand::FallbackDeck => "fallback",
        };
        String::from_str(t)
    }

    /// The choice a lower-case label names, if any.
    pub fn from_lowered(t: &str) -> (r: Option<DeckSubCommand>)
        ensures
            r == deck_choice_of(t@),
    {
        if same_text(t, "1") {
            Some(DeckSubCommand::Deck1)
        } else if same_text(t, "2") {
            Some(DeckSubCommand::Deck2)
        } else if same_text(t, "3") {
            Some(DeckSubCommand::Deck3)
        } else if same_text(t, "4") {
            Some(DeckSubCommand::Deck4)
        } else if same_text(t, "5") {
            Some(DeckSubCommand::Deck5)
        } else if same_text(t, "fallback") {
            Some(DeckSubCommand::FallbackDeck)
        } else if same_text(t, "all") {
            Some(DeckSubCommand::AllDecks)
        } else {
            None
        }
    }

    /// The choice a label names, ignoring case; `None` for an unknown label.
    pub fn from_str(s: &str) -> (r: Option<DeckSubCommand>)
        ensures
            r == deck_choice_of(lower_of(s@)),
    {
        let t = lowercase(s);
        DeckSubCommand::from_lowered(t.as_str())
    }

    /// The text to show for this choice about `npc`: every deck, the
    /// fallback deck, or the deck of the chosen cycle.
    pub fn run(&self, npc: &NPC) -> (r: String)
        ensures
            r@ == match *self {
                DeckSubCommand::AllDecks => all_decks_text(npc@),
                DeckSubCommand::FallbackDeck => fallback_deck_text(npc@),
                _ => cycle_deck_text(npc@, choice_cycle(*self)->Some_0 as int),
            },
    {
        if *self == DeckSubCommand::AllDecks {
            npc.print_all_decks()
        } else if *self == DeckSubCommand::FallbackDeck {
            npc.print_fallback_deck()
        } else {
            match self.cycle() {
                Some(c) => npc.print_deck(c),
                None => npc.print_fallback_deck(),
            }
        }
    }
}


/// The commands of the main menu.
#[derive(Debug, Clone, Copy, PartialEq, Eq, Structural)]
pub enum Command {
    ViewNPC,
    ViewEvent,
    Quit,
}

/// The label of a main-menu command.
pub open spec fn command_text(c: Command) -> Seq<char> {
    match c {
        Command::ViewEvent => "view event"@,
        Command::ViewNPC => "view npc"@,
        Command::Quit => "quit"@,
    }
}

/// The command that a lower-case label names.
pub open spec fn command_of(t: Seq<char>) -> Option<Command> {
    if t == "view event"@ {
        Some(Command::ViewEvent)
    } else if t == "view npc"@ {
        Some(Command::ViewNPC)
    } else if t == "quit"@ {
        Some(Command::Quit)
    } else {
        None
    }
}

impl Command {
    /// Every command, in menu order.
    pub fn all() -> (r: Vec<Command>)
        ensures
            r@ == seq![Command::ViewNPC, Command::ViewEvent, Command::Quit],
    {
        let r = vec![Command::ViewNPC, Command::ViewEvent, Command::Quit];
        assert(r@ =~= seq![Command::ViewNPC, Command::ViewEvent, Command::Quit]);
        r
    }

    /// The menu label of this command.
    pub fn to_text(&self) -> (r: String)
        ensures
            r@ == command_text(*self),
    {
        let t: &str = match self {
            Command::ViewEvent => "view event",
            Command::ViewNPC => "view npc",
            Command::Quit => "quit",
        };
        String::from_str(t)
    }

    /// The command a lower-case label names, if any.
    pub fn from_lowered(t: &str) -> (r: Option<Command>)
        ensures
            r == command_of(t@),
    {
        if same_text(t, "view event") {
            Some(Command::ViewEvent)
        } else if same_text(t, "view npc") {
            Some(Command::ViewNPC)
        } else if same_text(t, "quit") {
            Some(Command::Quit)
        } else {
            None
        }
    }

    /// The command a label names, ignoring case; `None` for an unknown label.
    pub fn from_str(s: &str) -> (r: Option<Command>)
        ensures
            r == command_of(lower_of(s@)),
    {
        let t = lowercase(s);
        Command::from_lowered(t.as_str())
    }
}

/// The commands of the menu about one character.
#[derive(Debug, Clone, Copy, PartialEq, Eq, Structural)]
pub enum NPCSubCommand {
    ViewEvents,
    ViewDecks,
    Back,
}

/// The label of a character-menu command.
pub open spec fn npc_command_text(c: NPCSubCommand) -> Seq<char> {
    match c {
        NPCSubCommand::ViewEvents => "events"@,
        NPCSubCommand::ViewDecks => "decks"@,
        NPCSubCommand::Back => "back"@,
    }
}

/// The character-menu command that a lower-case label names.
pub open spec fn npc_command_of(t: Seq<char>) -> Option<NPCSubCommand> {
    if t == "events"@ {
        Some(NPCSubCommand::ViewEvents)
    } else if t == "decks"@ {
        Some(NPCSubCommand::ViewDecks)
    } else if t == "back"@ {
        Some(NPCSubCommand::Back)
    } else {
        None
    }
}

impl NPCSubCommand {
    /// Every command, in menu order.
    pub fn all() -> (r: Vec<NPCSubCommand>)
        ensures
            r@ == seq![NPCSubCommand::ViewEvents, NPCSubCommand::ViewDecks, NPCSubCommand::Back],
    {
        let r = vec![NPCSubCommand::ViewEvents, NPCSubCommand::ViewDecks, NPCSubCommand::Back];
        assert(r@ =~= seq![NPCSubCommand::ViewEvents, NPCSubCommand::ViewDecks, NPCSubCommand::Back]);
        r
    }

    /// The menu label of this command.
    pub fn to_text(&self) -> (r: String)
        ensures
            r@ == npc_command_text(*self),
    {
        let t: &str = match self {
            NPCSubCommand::ViewEvents => "events",
            NPCSubCommand::ViewDecks => "decks",
            NPCSubCommand::Back => "back",
        };
        String::from_str(t)
    }

    /// The command a lower-case label names, if any.
    pub fn from_lowered(t: &str) -> (r: Option<NPCSubCommand>)
        ensures
            r == npc_command_of(t@),
    {
        if same_text(t, "events") {
            Some(NPCSubCommand::ViewEvents)
        } else if same_text(t, "decks") {
            Some(NPCSubCommand::ViewDecks)
        } else if same_text(t, "back") {
            Some(NPCSubCommand::Back)
        } else {
            None
        }
    }

    /// The command a label names, ignoring case; `None` for an unknown label.
    pub fn from_str(s: &str) -> (r: Option<NPCSubCommand>)
        ensures
            r == npc_command_of(lower_of(s@)),
    {
        let t = lowercase(s);
        NPCSubCommand::from_lowered(t.as_str())
    }
}

} // verus!
