//! The `draft` part of a Game State Integration payload: picks, bans and
//! timers of the captains' draft.

use std::collections::HashMap;

use vstd::prelude::*;

use crate::json::{
    as_bool_spec, as_i64_spec, as_object_spec, as_str_spec, get, lookup, JsonEntry, JsonValue,
};
use crate::text::{chars_of, decimal, lemma_parse_u8_decimal, parse_u8, parse_u8_spec};

verus! {

broadcast use vstd::std_specs::hash::group_hash_axioms;

/// A side of the match. GSI names the Radiant draft `team2` and the Dire
/// draft `team3`; any other name is undefined.
#[derive(Debug, Clone, Copy, PartialEq, Eq, Structural, Hash)]
pub enum Team {
    Radiant,
    Dire,
    Undefined,
}

/// The team a `team*` key names.
pub open spec fn team_of(key: Seq<char>) -> Team {
    if key =~= seq!['t', 'e', 'a', 'm', '2'] {
        Team::Radiant
    } else if key =~= seq!['t', 'e', 'a', 'm', '3'] {
        Team::Dire
    } else {
        Team::Undefined
    }
}

/// `s` begins with `p`.
pub open spec fn has_prefix(s: Seq<char>, p: Seq<char>) -> bool {
    p.len() <= s.len() && s.take(p.len() as int) =~= p
}

/// `s` ends with `p`.
pub open spec fn has_suffix(s: Seq<char>, p: Seq<char>) -> bool {
    p.len() <= s.len() && s.skip(s.len() - p.len()) =~= p
}

/// Whether `s[start..start + pat.len()]` is `pat`.
fn matches_at(s: &[char], start: usize, pat: &[char]) -> (r: bool)
    requires
        start <= s@.len(),
    ensures
        r == (start + pat@.len() <= s@.len() && s@.subrange(
            start as int,
            start + pat@.len(),
        ) =~= pat@),
{
    let n = pat.len();
    let slen = s.len();
    if n > slen - start {
        return false;
    }
    let mut i: usize = 0;
    while i < n
        invariant
            n == pat@.len(),
            slen == s@.len(),
            start + n <= slen,
            0 <= i <= n,
            forall|j: int| 0 <= j < i ==> s@[start + j] == pat@[j],
        decreases n - i,
    {
        if s[start + i] != pat[i] {
            assert(s@.subrange(start as int, start + n)[i as int] != pat@[i as int]);
            return false;
        }
        i = i + 1;
    }
    assert(s@.subrange(start as int, start + n) =~= pat@);
    true
}

impl Team {
    /// The team a `team*` key of the draft names.
    pub fn from_key(key: &str) -> (t: Team)
        ensures
            t == team_of(key@),
    {
        let cs = chars_of(key);
        let radiant: Vec<char> = vec!['t', 'e', 'a', 'm', '2'];
        let dire: Vec<char> = vec!['t', 'e', 'a', 'm', '3'];
        if cs.len() == 5 && matches_at(cs.as_slice(), 0, radiant.as_slice()) {
            assert(cs@ =~= cs@.subrange(0, 5));
            Team::Radiant
        } else if cs.len() == 5 && matches_at(cs.as_slice(), 0, dire.as_slice()) {
            assert(cs@ =~= cs@.subrange(0, 5));
            Team::Dire
        } else {
            proof {
                if cs@ =~= seq!['t', 'e', 'a', 'm', '2'] {
                    assert(cs@.subrange(0, 5) =~= radiant@);
                }
                if cs@ =~= seq!['t', 'e', 'a', 'm', '3'] {
                    assert(cs@.subrange(0, 5) =~= dire@);
                }
            }
            Team::Undefined
        }
    }
}

/// Whether a slot holds a pick or a ban.
#[derive(Debug, Clone, Copy, PartialEq, Eq, Structural)]
pub enum SlotKind {
    Pick,
    Ban,
}

/// Which half of a slot a key sets: the hero id or the hero class.
#[derive(Debug, Clone, Copy, PartialEq, Eq, Structural)]
pub enum SlotField {
    Id,
    Class,
}

/// The text `pick`, which starts a pick slot key.
pub open spec fn word_pick() -> Seq<char> {
    seq!['p', 'i', 'c', 'k']
}

/// The text `ban`, which starts a ban slot key.
pub open spec fn word_ban() -> Seq<char> {
    seq!['b', 'a', 'n']
}

/// The text `_id`, which ends a hero id key.
pub open spec fn word_id() -> Seq<char> {
    seq!['_', 'i', 'd']
}

/// The text `_class`, which ends a hero class key.
pub open spec fn word_class() -> Seq<char> {
    seq!['_', 'c', 'l', 'a', 's', 's']
}

/// The slot index and field named by what follows `pick` or `ban`: an index
/// that parses as a `u8`, then `_id` or `_class`.
pub open spec fn slot_rest(rest: Seq<char>) -> Option<(u8, SlotField)> {
    if has_suffix(rest, word_id()) {
        match parse_u8_spec(rest.take(rest.len() - 3)) {
            Some(i) => Some((i, SlotField::Id)),
            None => None,
        }
    } else if has_suffix(rest, word_class()) {
        match parse_u8_spec(rest.take(rest.len() - 6)) {
            Some(i) => Some((i, SlotField::Class)),
            None => None,
        }
    } else {
        None
    }
}

/// The slot a draft key sets: `pick{n}_id`, `pick{n}_class`, `ban{n}_id`
/// or `ban{n}_class`.
pub open spec fn slot_key(key: Seq<char>) -> Option<(SlotKind, u8, SlotField)> {
    if has_prefix(key, word_pick()) {
        match slot_rest(key.skip(4)) {
            Some((i, f)) => Some((SlotKind::Pick, i, f)),
            None => None,
        }
    } else if has_prefix(key, word_ban()) {
        match slot_rest(key.skip(3)) {
            Some((i, f)) => Some((SlotKind::Ban, i, f)),
            None => None,
        }
    } else {
        None
    }
}

/// The slot index and field named by `cs[start..]`.
fn parse_slot_rest(cs: &[char], start: usize) -> (r: Option<(u8, SlotField)>)
    requires
        start <= cs@.len(),
    ensures
        r == slot_rest(cs@.skip(start as int)),
{
    let ghost rest = cs@.skip(start as int);
    let n = cs.len();
    let id_word: Vec<char> = vec!['_', 'i', 'd'];
    let class_word: Vec<char> = vec!['_', 'c', 'l', 'a', 's', 's'];
    if n - start >= 3 && matches_at(cs, n - 3, id_word.as_slice()) {
        assert(rest.skip(rest.len() - 3) =~= cs@.subrange(n - 3, n as int));
        assert(rest.take(rest.len() - 3) =~= cs@.subrange(start as int, n - 3));
        return match parse_u8(cs, start, n - 3) {
            Some(i) => Some((i, SlotField::Id)),
            None => None,
        };
    }
    assert(!has_suffix(rest, word_id())) by {
        if has_suffix(rest, word_id()) {
            assert(rest.skip(rest.len() - 3) =~= cs@.subrange(n - 3, n as int));
        }
    }
    if n - start >= 6 && matches_at(cs, n - 6, class_word.as_slice()) {
        assert(rest.skip(rest.len() - 6) =~= cs@.subrange(n - 6, n as int));
        assert(rest.take(rest.len() - 6) =~= cs@.subrange(start as int, n - 6));
        return match parse_u8(cs, start, n - 6) {
            Some(i) => Some((i, SlotField::Class)),
            None => None,
        };
    }
    assert(!has_suffix(rest, word_class())) by {
        if has_suffix(rest, word_class()) {
            assert(rest.skip(rest.len() - 6) =~= cs@.subrange(n - 6, n as int));
        }
    }
    None
}

/// The slot a draft key sets, if it is one.
pub fn parse_slot_key(key: &str) -> (r: Option<(SlotKind, u8, SlotField)>)
    ensures
        r == slot_key(key@),
{
    let cs = chars_of(key);
    let pick_word: Vec<char> = vec!['p', 'i', 'c', 'k'];
    let ban_word: Vec<char> = vec!['b', 'a', 'n'];
    if matches_at(cs.as_slice(), 0, pick_word.as_slice()) {
        assert(cs@.take(4) =~= cs@.subrange(0, 4));
        return match parse_slot_rest(cs.as_slice(), 4) {
            Some((i, f)) => Some((SlotKind::Pick, i, f)),
            None => None,
        };
    }
    assert(!has_prefix(cs@, word_pick())) by {
        if has_prefix(cs@, word_pick()) {
            assert(cs@.take(4) =~= cs@.subrange(0, 4));
        }
    }
    if matches_at(cs.as_slice(), 0, ban_word.as_slice()) {
        assert(cs@.take(3) =~= cs@.subrange(0, 3));
        return match parse_slot_rest(cs.as_slice(), 3) {
            Some((i, f)) => Some((SlotKind::Ban, i, f)),
            None => None,
        };
    }
    assert(!has_prefix(cs@, word_ban())) by {
        if has_prefix(cs@, word_ban()) {
            assert(cs@.take(3) =~= cs@.subrange(0, 3));
        }
    }
    None
}

/// The value of the last member that sets `field` of slot `idx` of `kind`.
pub open spec fn last_slot_value(
    entries: Seq<JsonEntry>,
    kind: SlotKind,
    idx: u8,
    field: SlotField,
) -> Option<JsonValue>
    decreases entries.len(),
{
    if entries.len() == 0 {
        None
    } else if slot_key(entries.last().key@) == Some((kind, idx, field)) {
        Some(entries.last().value)
    } else {
        last_slot_value(entries.drop_last(), kind, idx, field)
    }
}

/// The hero id of a slot: the last `_id` member's integer, truncated to
/// `i32`; none when that member is not an integer or there is none.
pub open spec fn slot_id(entries: Seq<JsonEntry>, kind: SlotKind, idx: u8) -> Option<i32> {
    match last_slot_value(entries, kind, idx, SlotField::Id) {
        Some(v) => match as_i64_spec(v) {
            Some(n) => Some(n as i32),
            None => None,
        },
        None => None,
    }
}

/// The hero class of a slot: the last `_class` member's string; none when
/// that member is not a string or there is none.
pub open spec fn slot_class(entries: Seq<JsonEntry>, kind: SlotKind, idx: u8) -> Option<Seq<char>> {
    match last_slot_value(entries, kind, idx, SlotField::Class) {
        Some(v) => as_str_spec(v),
        None => None,
    }
}

/// The entry of a slot: present when it has both an id and a class, the id
/// is not 0 and the class is not empty (empty slots are left out).
pub open spec fn slot_entry(entries: Seq<JsonEntry>, kind: SlotKind, idx: u8) -> Option<
    (i32, Seq<char>),
> {
    match (slot_id(entries, kind, idx), slot_class(entries, kind, idx)) {
        (Some(id), Some(c)) => if id != 0 && c.len() > 0 {
            Some((id, c))
        } else {
            None
        },
        _ => None,
    }
}

/// All filled slots of `kind`, by index.
pub open spec fn slot_map(entries: Seq<JsonEntry>, kind: SlotKind) -> Map<u8, (i32, Seq<char>)> {
    Map::new(
        |i: u8| slot_entry(entries, kind, i) is Some,
        |i: u8| slot_entry(entries, kind, i)->0,
    )
}

/// A single hero pick entry, combining pick{n}_id and pick{n}_class.
#[derive(Debug, Clone, PartialEq)]
pub struct PickEntry {
    /// Hero numeric ID (pick{n}_id)
    pub hero_id: i32,
    /// Hero internal name (pick{n}_class), e.g. "npc_dota_hero_antimage"
    pub hero_class: String,
}

/// The id and class of every entry of `m`.
pub open spec fn pick_views(m: Map<u8, PickEntry>) -> Map<u8, (i32, Seq<char>)> {
    m.map_values(|e: PickEntry| (e.hero_id, e.hero_class@))
}

/// The id and class read so far for one slot.
#[derive(Debug)]
pub struct RawSlot {
    pub id: Option<i32>,
    pub class: Option<String>,
}

/// The text of an optional class.
pub open spec fn class_view(c: Option<String>) -> Option<Seq<char>> {
    match c {
        Some(s) => Some(s@),
        None => None,
    }
}

/// The entry a raw slot makes: both halves present, a non-zero id and a
/// non-empty class.
pub open spec fn filled(s: RawSlot) -> Option<(i32, Seq<char>)> {
    match (s.id, class_view(s.class)) {
        (Some(id), Some(c)) => if id != 0 && c.len() > 0 {
            Some((id, c))
        } else {
            None
        },
        _ => None,
    }
}

/// The entries of the filled slots of `raw`, by index.
pub open spec fn filled_map(raw: Seq<RawSlot>) -> Map<u8, (i32, Seq<char>)> {
    Map::new(
        |i: u8| (i as int) < raw.len() && filled(raw[i as int]) is Some,
        |i: u8| filled(raw[i as int])->0,
    )
}

/// Collect raw (id, class) pairs into PickEntry map, filtering empty slots (id=0, class="").
pub fn collect_entries(raw: &Vec<RawSlot>) -> (res: HashMap<u8, PickEntry>)
    requires
        raw@.len() <= 256,
    ensures
        pick_views(res@) == filled_map(raw@),
{
    let mut out: HashMap<u8, PickEntry> = HashMap::new();
    let n = raw.len();
    let mut idx: usize = 0;
    while idx < n
        invariant
            n == raw@.len(),
            n <= 256,
            0 <= idx <= n,
            pick_views(out@) =~= Map::new(
                |i: u8| (i as int) < idx && filled(raw@[i as int]) is Some,
                |i: u8| filled(raw@[i as int])->0,
            ),
        decreases n - idx,
    {
        let slot = &raw[idx];
        let key: u8 = idx as u8;
        assert(key as int == idx as int);
        match (&slot.id, &slot.class) {
            (Some(id), Some(class)) => {
                if *id != 0 && !class.as_str().is_empty() {
                    let entry = PickEntry { hero_id: *id, hero_class: class.clone() };
                    let ghost before = out@;
                    out.insert(key, entry);
                    assert(pick_views(out@) =~= pick_views(before).insert(key, (*id, class@)));
                }
            },
            _ => {},
        }
        assert(pick_views(out@) =~= Map::new(
            |i: u8| (i as int) < idx + 1 && filled(raw@[i as int]) is Some,
            |i: u8| filled(raw@[i as int])->0,
        ));
        idx = idx + 1;
    }
    out
}

/// A raw slot agrees with what the members `entries` set for it.
pub open spec fn raw_agrees(s: RawSlot, entries: Seq<JsonEntry>, kind: SlotKind, idx: u8) -> bool {
    s.id == slot_id(entries, kind, idx) && class_view(s.class) == slot_class(entries, kind, idx)
}

/// All 256 raw slots of `kind` agree with what `entries` set.
pub open spec fn raws_agree(raw: Seq<RawSlot>, entries: Seq<JsonEntry>, kind: SlotKind) -> bool {
    &&& raw.len() == 256
    &&& forall|j: int| 0 <= j < 256 ==> raw_agrees(#[trigger] raw[j], entries, kind, j as u8)
}

/// 256 empty slots, one for every `u8` index.
fn empty_slots() -> (res: Vec<RawSlot>)
    ensures
        res@.len() == 256,
        forall|j: int| 0 <= j < 256 ==> (#[trigger] res@[j]).id is None && res@[j].class is None,
{
    let mut res: Vec<RawSlot> = Vec::new();
    let mut i: usize = 0;
    while i < 256
        invariant
            0 <= i <= 256,
            res@.len() == i,
            forall|j: int| 0 <= j < i ==> (#[trigger] res@[j]).id is None && res@[j].class is None,
        decreases 256 - i,
    {
        res.push(RawSlot { id: None, class: None });
        i = i + 1;
    }
    res
}

/// A copy of an optional class.
fn copy_class(c: &Option<String>) -> (res: Option<String>)
    ensures
        class_view(res) == class_view(*c),
{
    match c {
        Some(s) => Some(s.clone()),
        None => None,
    }
}

/// Record that `value` sets `field` of slot `idx`.
fn set_slot(raw: &mut Vec<RawSlot>, idx: u8, field: SlotField, value: &JsonValue)
    requires
        old(raw)@.len() == 256,
    ensures
        final(raw)@.len() == 256,
        forall|j: int| 0 <= j < 256 && j != idx as int ==> #[trigger] final(raw)@[j] == old(raw)@[j],
        field == SlotField::Id ==> final(raw)@[idx as int].id == (match as_i64_spec(*value) {
            Some(n) => Some(n as i32),
            None => None,
        }) && class_view(final(raw)@[idx as int].class) == class_view(old(raw)@[idx as int].class),
        field == SlotField::Class ==> class_view(final(raw)@[idx as int].class) == as_str_spec(*value)
            && final(raw)@[idx as int].id == old(raw)@[idx as int].id,
{
    let i = idx as usize;
    let slot = match field {
        SlotField::Id => RawSlot {
            id: match value.as_i64() {
                Some(n) => Some(n as i32),
                None => None,
            },
            class: copy_class(&raw[i].class),
        },
        SlotField::Class => RawSlot {
            id: raw[i].id,
            class: match value.as_str() {
                Some(s) => Some(String::from_str(s)),
                None => None,
            },
        },
    };
    raw.set(i, slot);
}

/// Draft details for a single team.
#[derive(Debug, Clone, PartialEq)]
pub struct DraftDetails {
    pub is_home_team: bool,
    /// Picks indexed by pick order (0..4), empty slots filtered out
    pub picks: HashMap<u8, PickEntry>,
    /// Bans indexed by ban order (0..5), empty slots filtered out
    pub bans: HashMap<u8, PickEntry>,
}

/// A boolean member, false when it is missing or not a boolean.
pub open spec fn bool_member(entries: Seq<JsonEntry>, key: Seq<char>) -> bool {
    match lookup(entries, key) {
        Some(v) => match as_bool_spec(v) {
            Some(b) => b,
            None => false,
        },
        None => false,
    }
}

/// `d` is what the members `entries` of a team object describe.
pub open spec fn details_match(d: DraftDetails, entries: Seq<JsonEntry>) -> bool {
    &&& d.is_home_team == bool_member(entries, "home_team"@)
    &&& pick_views(d.picks@) == slot_map(entries, SlotKind::Pick)
    &&& pick_views(d.bans@) == slot_map(entries, SlotKind::Ban)
}

/// Unfolding [`last_slot_value`] by one member.
proof fn lemma_last_slot_step(entries: Seq<JsonEntry>, i: int, kind: SlotKind, idx: u8, field: SlotField)
    requires
        0 <= i < entries.len(),
    ensures
        last_slot_value(entries.take(i + 1), kind, idx, field) == if slot_key(entries[i].key@)
            == Some((kind, idx, field)) {
            Some(entries[i].value)
        } else {
            last_slot_value(entries.take(i), kind, idx, field)
        },
{
    assert(entries.take(i + 1).drop_last() =~= entries.take(i));
    assert(entries.take(i + 1).last() == entries[i]);
}

/// The slots that all 256 raw slots give equal [`slot_map`].
proof fn lemma_filled_slots(raw: Seq<RawSlot>, entries: Seq<JsonEntry>, kind: SlotKind)
    requires
        raws_agree(raw, entries, kind),
    ensures
        filled_map(raw) == slot_map(entries, kind),
{
    assert forall|i: u8| #[trigger] filled(raw[i as int]) == slot_entry(entries, kind, i) by {
        assert(raw_agrees(raw[i as int], entries, kind, i));
    }
    assert(filled_map(raw) =~= slot_map(entries, kind));
}

impl DraftDetails {
    /// The draft details the members of a team object describe.
    pub fn from_object(entries: &Vec<JsonEntry>) -> (res: DraftDetails)
        ensures
            details_match(res, entries@),
    {
        let is_home_team = match get(entries, "home_team") {
            Some(v) => match v.as_bool() {
                Some(b) => b,
                None => false,
            },
            None => false,
        };
        let mut picks_raw = empty_slots();
        let mut bans_raw = empty_slots();
        assert(raws_agree(picks_raw@, entries@.take(0), SlotKind::Pick));
        assert(raws_agree(bans_raw@, entries@.take(0), SlotKind::Ban));
        let n = entries.len();
        let mut i: usize = 0;
        while i < n
            invariant
                n == entries@.len(),
                0 <= i <= n,
                raws_agree(picks_raw@, entries@.take(i as int), SlotKind::Pick),
                raws_agree(bans_raw@, entries@.take(i as int), SlotKind::Ban),
            decreases n - i,
        {
            let entry = &entries[i];
            let key = parse_slot_key(entry.key.as_str());
            let ghost old_picks = picks_raw@;
            let ghost old_bans = bans_raw@;
            match key {
                Some((SlotKind::Pick, idx, field)) => {
                    set_slot(&mut picks_raw, idx, field, &entry.value);
                },
                Some((SlotKind::Ban, idx, field)) => {
                    set_slot(&mut bans_raw, idx, field, &entry.value);
                },
                None => {},
            }
            assert forall|j: int| 0 <= j < 256 implies raw_agrees(
                #[trigger] picks_raw@[j],
                entries@.take(i + 1),
                SlotKind::Pick,
                j as u8,
            ) by {
                lemma_last_slot_step(entries@, i as int, SlotKind::Pick, j as u8, SlotField::Id);
                lemma_last_slot_step(entries@, i as int, SlotKind::Pick, j as u8, SlotField::Class);
                assert(raw_agrees(old_picks[j], entries@.take(i as int), SlotKind::Pick, j as u8));
            }
            assert forall|j: int| 0 <= j < 256 implies raw_agrees(
                #[trigger] bans_raw@[j],
                entries@.take(i + 1),
                SlotKind::Ban,
                j as u8,
            ) by {
                lemma_last_slot_step(entries@, i as int, SlotKind::Ban, j as u8, SlotField::Id);
                lemma_last_slot_step(entries@, i as int, SlotKind::Ban, j as u8, SlotField::Class);
                assert(raw_agrees(old_bans[j], entries@.take(i as int), SlotKind::Ban, j as u8));
            }
            i = i + 1;
        }
        assert(entries@.take(n as int) =~= entries@);
        proof {
            lemma_filled_slots(picks_raw@, entries@, SlotKind::Pick);
            lemma_filled_slots(bans_raw@, entries@, SlotKind::Ban);
        }
        let picks = collect_entries(&picks_raw);
        let bans = collect_entries(&bans_raw);
        DraftDetails { is_home_team, picks, bans }
    }
}

/// Why a draft could not be read.
#[derive(Debug, Clone, Copy, PartialEq, Eq, Structural)]
pub enum DraftError {
    /// The value is not a JSON object.
    NotAnObject,
}

impl DraftDetails {
    /// Read the draft details of one team from a JSON value; only an object
    /// can be read.
    pub fn from_json(value: &JsonValue) -> (res: Result<DraftDetails, DraftError>)
        ensures
            match as_object_spec(*value) {
                Some(entries) => res matches Ok(d) && details_match(d, entries),
                None => res == Err::<DraftDetails, DraftError>(DraftError::NotAnObject),
            },
    {
        match value {
            JsonValue::Object(entries) => Ok(DraftDetails::from_object(entries)),
            _ => Err(DraftError::NotAnObject),
        }
    }
}

/// The text `team`, which starts a team key.
pub open spec fn word_team() -> Seq<char> {
    seq!['t', 'e', 'a', 'm']
}

/// An integer member truncated to `i32`, 0 when it is missing or not an
/// integer.
pub open spec fn int_member(entries: Seq<JsonEntry>, key: Seq<char>) -> i32 {
    match lookup(entries, key) {
        Some(v) => match as_i64_spec(v) {
            Some(n) => n as i32,
            None => 0,
        },
        None => 0,
    }
}

/// The members of the last object-valued `team*` member that names team `t`.
pub open spec fn team_source(entries: Seq<JsonEntry>, t: Team) -> Option<Seq<JsonEntry>>
    decreases entries.len(),
{
    if entries.len() == 0 {
        None
    } else if has_prefix(entries.last().key@, word_team()) && team_of(entries.last().key@) == t
        && as_object_spec(entries.last().value) is Some {
        as_object_spec(entries.last().value)
    } else {
        team_source(entries.drop_last(), t)
    }
}

/// The details recorded for team `t` (the last record when it repeats).
pub open spec fn team_lookup(teams: Seq<(Team, DraftDetails)>, t: Team) -> Option<DraftDetails>
    decreases teams.len(),
{
    if teams.len() == 0 {
        None
    } else if teams.last().0 == t {
        Some(teams.last().1)
    } else {
        team_lookup(teams.drop_last(), t)
    }
}

/// No team is recorded twice.
pub open spec fn teams_distinct(teams: Seq<(Team, DraftDetails)>) -> bool {
    forall|i: int, j: int| 0 <= i < j < teams.len() ==> #[trigger] teams[i].0 != #[trigger] teams[j].0
}

/// `teams` records exactly the teams whose objects `entries` holds, each
/// once, with the details its last object describes.
pub open spec fn teams_match(teams: Seq<(Team, DraftDetails)>, entries: Seq<JsonEntry>) -> bool {
    &&& teams_distinct(teams)
    &&& forall|t: Team|
        match #[trigger] team_source(entries, t) {
            Some(obj) => team_lookup(teams, t) matches Some(d) && details_match(d, obj),
            None => team_lookup(teams, t) is None,
        }
}

/// A recorded team is found where it stands.
proof fn lemma_team_lookup_at(teams: Seq<(Team, DraftDetails)>, j: int)
    requires
        teams_distinct(teams),
        0 <= j < teams.len(),
    ensures
        team_lookup(teams, teams[j].0) == Some(teams[j].1),
    decreases teams.len(),
{
    if j < teams.len() - 1 {
        assert(teams[j].0 != teams[teams.len() - 1].0);
        let rest = teams.drop_last();
        assert(rest[j] == teams[j]);
        assert(teams_distinct(rest)) by {
            assert forall|a: int, b: int| 0 <= a < b < rest.len() implies #[trigger] rest[a].0
                != #[trigger] rest[b].0 by {
                assert(rest[a] == teams[a] && rest[b] == teams[b]);
            }
        }
        lemma_team_lookup_at(rest, j);
    }
}

/// A team that is not recorded is not found.
proof fn lemma_team_lookup_absent(teams: Seq<(Team, DraftDetails)>, t: Team)
    requires
        forall|i: int| 0 <= i < teams.len() ==> #[trigger] teams[i].0 != t,
    ensures
        team_lookup(teams, t) is None,
    decreases teams.len(),
{
    if teams.len() > 0 {
        let rest = teams.drop_last();
        assert forall|i: int| 0 <= i < rest.len() implies #[trigger] rest[i].0 != t by {
            assert(rest[i] == teams[i]);
        }
        lemma_team_lookup_absent(rest, t);
    }
}

/// The index at which team `t` is recorded, if it is.
fn find_team(teams: &Vec<(Team, DraftDetails)>, t: Team) -> (r: Option<usize>)
    ensures
        match r {
            Some(j) => j < teams@.len() && teams@[j as int].0 == t,
            None => forall|i: int| 0 <= i < teams@.len() ==> #[trigger] teams@[i].0 != t,
        },
{
    let n = teams.len();
    let mut j: usize = 0;
    while j < n
        invariant
            n == teams@.len(),
            0 <= j <= n,
            forall|i: int| 0 <= i < j ==> #[trigger] teams@[i].0 != t,
        decreases n - j,
    {
        if teams[j].0 == t {
            return Some(j);
        }
        j = j + 1;
    }
    None
}

/// Record `details` for team `t`, replacing an earlier record of it.
fn put_team(teams: &mut Vec<(Team, DraftDetails)>, t: Team, details: DraftDetails)
    requires
        teams_distinct(old(teams)@),
    ensures
        teams_distinct(final(teams)@),
        team_lookup(final(teams)@, t) == Some(details),
        forall|u: Team| u != t ==> #[trigger] team_lookup(final(teams)@, u) == team_lookup(old(teams)@, u),
{
    let ghost before = teams@;
    match find_team(teams, t) {
        Some(j) => {
            teams.set(j, (t, details));
            let ghost after = teams@;
            assert(teams_distinct(after)) by {
                assert forall|a: int, b: int| 0 <= a < b < after.len() implies #[trigger] after[a].0
                    != #[trigger] after[b].0 by {
                    assert(before[a].0 != before[b].0);
                }
            }
            proof {
                lemma_team_lookup_at(after, j as int);
                assert forall|u: Team| u != t implies #[trigger] team_lookup(after, u) == team_lookup(
                    before,
                    u,
                ) by {
                    if exists|k: int| 0 <= k < before.len() && before[k].0 == u {
                        let k = choose|k: int| 0 <= k < before.len() && before[k].0 == u;
                        assert(k != j);
                        assert(after[k] == before[k]);
                        lemma_team_lookup_at(before, k);
                        lemma_team_lookup_at(after, k);
                    } else {
                        assert forall|i: int| 0 <= i < after.len() implies #[trigger] after[i].0 != u by {
                            if i != j {
                                assert(after[i] == before[i]);
                            }
                        }
                        lemma_team_lookup_absent(before, u);
                        lemma_team_lookup_absent(after, u);
                    }
                }
            }
        },
        None => {
            teams.push((t, details));
            let ghost after = teams@;
            assert(teams_distinct(after)) by {
                assert forall|a: int, b: int| 0 <= a < b < after.len() implies #[trigger] after[a].0
                    != #[trigger] after[b].0 by {
                    assert(after[a] == before[a]);
                    if b < before.len() {
                        assert(after[b] == before[b]);
                    }
                }
            }
            assert(after.drop_last() =~= before);
        },
    }
}

/// Full draft state, top-level `draft` field from GSI.
#[derive(Debug, Clone, PartialEq)]
pub struct Draft {
    /// Currently active team (2 = Radiant, 3 = Dire)
    pub active_team: i32,
    /// true = pick phase, false = ban phase
    pub pick: bool,
    /// Remaining time for active team (seconds)
    pub active_team_remaining_time: i32,
    /// Radiant bonus time bank (seconds)
    pub radiant_bonus_time: i32,
    /// Dire bonus time bank (seconds)
    pub dire_bonus_time: i32,
    /// Per-team draft details, each team at most once
    pub teams: Vec<(Team, DraftDetails)>,
}

/// `d` is what the members `entries` of a `draft` object describe.
pub open spec fn draft_match(d: Draft, entries: Seq<JsonEntry>) -> bool {
    &&& d.active_team == int_member(entries, "activeteam"@)
    &&& d.pick == bool_member(entries, "pick"@)
    &&& d.active_team_remaining_time == int_member(entries, "activeteam_time_remaining"@)
    &&& d.radiant_bonus_time == int_member(entries, "radiant_bonus_time"@)
    &&& d.dire_bonus_time == int_member(entries, "dire_bonus_time"@)
    &&& teams_match(d.teams@, entries)
}

/// An integer member truncated to `i32`, 0 when it is missing or not an integer.
fn read_int(entries: &Vec<JsonEntry>, key: &str) -> (r: i32)
    ensures
        r == int_member(entries@, key@),
{
    match get(entries, key) {
        Some(v) => match v.as_i64() {
            Some(n) => n as i32,
            None => 0,
        },
        None => 0,
    }
}

/// A boolean member, false when it is missing or not a boolean.
fn read_bool(entries: &Vec<JsonEntry>, key: &str) -> (r: bool)
    ensures
        r == bool_member(entries@, key@),
{
    match get(entries, key) {
        Some(v) => match v.as_bool() {
            Some(b) => b,
            None => false,
        },
        None => false,
    }
}

impl Draft {
    /// The draft the members of a `draft` object describe.
    pub fn from_object(entries: &Vec<JsonEntry>) -> (res: Draft)
        ensures
            draft_match(res, entries@),
    {
        let active_team = read_int(entries, "activeteam");
        let pick = read_bool(entries, "pick");
        let active_team_remaining_time = read_int(entries, "activeteam_time_remaining");
        let radiant_bonus_time = read_int(entries, "radiant_bonus_time");
        let dire_bonus_time = read_int(entries, "dire_bonus_time");
        let team_word: Vec<char> = vec!['t', 'e', 'a', 'm'];
        let mut teams: Vec<(Team, DraftDetails)> = Vec::new();
        let n = entries.len();
        let mut i: usize = 0;
        assert(teams_match(teams@, entries@.take(0)));
        while i < n
            invariant
                n == entries@.len(),
                0 <= i <= n,
                team_word@ == word_team(),
                teams_match(teams@, entries@.take(i as int)),
            decreases n - i,
        {
            let ghost prev = entries@.take(i as int);
            let ghost next = entries@.take(i + 1);
            assert(next.drop_last() =~= prev);
            assert(next.last() == entries@[i as int]);
            let ghost before = teams@;
            let entry = &entries[i];
            let key_chars = chars_of(entry.key.as_str());
            let is_team_key = matches_at(key_chars.as_slice(), 0, team_word.as_slice());
            assert(is_team_key == has_prefix(entry.key@, word_team())) by {
                assert(key_chars@.take(4) =~= key_chars@.subrange(0, 4));
                if has_prefix(entry.key@, word_team()) {
                    assert(key_chars@.subrange(0, 4) =~= key_chars@.take(4));
                }
            }
            if is_team_key {
                let team = Team::from_key(entry.key.as_str());
                match &entry.value {
                    JsonValue::Object(obj) => {
                        let details = DraftDetails::from_object(obj);
                        put_team(&mut teams, team, details);
                        assert forall|t: Team|
                            match #[trigger] team_source(next, t) {
                                Some(o) => team_lookup(teams@, t) matches Some(d) && details_match(
                                    d,
                                    o,
                                ),
                                None => team_lookup(teams@, t) is None,
                            } by {
                            if t != team {
                                assert(team_source(next, t) == team_source(prev, t));
                                assert(team_lookup(teams@, t) == team_lookup(before, t));
                            }
                        }
                    },
                    _ => {
                        assert forall|t: Team| #[trigger]
                            team_source(next, t) == team_source(prev, t) by {}
                    },
                }
            } else {
                assert forall|t: Team| #[trigger] team_source(next, t) == team_source(prev, t) by {}
            }
            i = i + 1;
        }
        assert(entries@.take(n as int) =~= entries@);
        Draft {
            active_team,
            pick,
            active_team_remaining_time,
            radiant_bonus_time,
            dire_bonus_time,
            teams,
        }
    }

    /// Read a draft from a JSON value; only an object can be read.
    pub fn from_json(value: &JsonValue) -> (res: Result<Draft, DraftError>)
        ensures
            match as_object_spec(*value) {
                Some(entries) => res matches Ok(d) && draft_match(d, entries),
                None => res == Err::<Draft, DraftError>(DraftError::NotAnObject),
            },
    {
        match value {
            JsonValue::Object(entries) => Ok(Draft::from_object(entries)),
            _ => Err(DraftError::NotAnObject),
        }
    }

    /// The draft details of team `t`, if the draft has them.
    pub fn team(&self, t: Team) -> (r: Option<&DraftDetails>)
        ensures
            match r {
                Some(d) => team_lookup(self.teams@, t) == Some(*d),
                None => team_lookup(self.teams@, t) is None,
            },
    {
        let mut k = self.teams.len();
        assert(self.teams@.take(k as int) =~= self.teams@);
        loop
            invariant
                k <= self.teams@.len(),
                team_lookup(self.teams@, t) == team_lookup(self.teams@.take(k as int), t),
            decreases k,
        {
            if k == 0 {
                return None;
            }
            let ghost cur = self.teams@.take(k as int);
            assert(cur.last() == self.teams@[k - 1]);
            if self.teams[k - 1].0 == t {
                return Some(&self.teams[k - 1].1);
            }
            assert(cur.drop_last() =~= self.teams@.take(k - 1));
            k = k - 1;
        }
    }
}

/// Empty slots are filtered out: every pick and ban that draft details
/// hold has a non-zero hero id and a non-empty hero class.
pub proof fn lemma_details_have_no_empty_slots(d: DraftDetails, entries: Seq<JsonEntry>)
    requires
        details_match(d, entries),
    ensures
        forall|k: u8| #[trigger] d.picks@.contains_key(k) ==> d.picks@[k].hero_id != 0
            && d.picks@[k].hero_class@.len() > 0,
        forall|k: u8| #[trigger] d.bans@.contains_key(k) ==> d.bans@[k].hero_id != 0
            && d.bans@[k].hero_class@.len() > 0,
{
    assert forall|k: u8| #[trigger] d.picks@.contains_key(k) implies d.picks@[k].hero_id != 0
        && d.picks@[k].hero_class@.len() > 0 by {
        assert(pick_views(d.picks@).contains_key(k));
        assert(pick_views(d.picks@)[k] == (d.picks@[k].hero_id, d.picks@[k].hero_class@));
        assert(slot_map(entries, SlotKind::Pick).contains_key(k));
    }
    assert forall|k: u8| #[trigger] d.bans@.contains_key(k) implies d.bans@[k].hero_id != 0
        && d.bans@[k].hero_class@.len() > 0 by {
        assert(pick_views(d.bans@).contains_key(k));
        assert(pick_views(d.bans@)[k] == (d.bans@[k].hero_id, d.bans@[k].hero_class@));
        assert(slot_map(entries, SlotKind::Ban).contains_key(k));
    }
}

/// Every team in a draft read from JSON appears once, and every empty pick
/// or ban slot of every team is filtered out.
pub proof fn lemma_draft_is_well_formed(d: Draft, entries: Seq<JsonEntry>)
    requires
        draft_match(d, entries),
    ensures
        teams_distinct(d.teams@),
        forall|i: int, k: u8|
            0 <= i < d.teams@.len() && #[trigger] d.teams@[i].1.picks@.contains_key(k)
                ==> d.teams@[i].1.picks@[k].hero_id != 0,
        forall|i: int, k: u8|
            0 <= i < d.teams@.len() && #[trigger] d.teams@[i].1.bans@.contains_key(k)
                ==> d.teams@[i].1.bans@[k].hero_id != 0,
{
    assert forall|i: int| 0 <= i < d.teams@.len() implies details_match(
        #[trigger] d.teams@[i].1,
        team_source(entries, d.teams@[i].0)->0,
    ) && team_source(entries, d.teams@[i].0) is Some by {
        lemma_team_lookup_at(d.teams@, i);
        let t = d.teams@[i].0;
        assert(team_lookup(d.teams@, t) == Some(d.teams@[i].1));
        match team_source(entries, t) {
            Some(obj) => {},
            None => {},
        }
    }
    assert forall|i: int, k: u8|
        0 <= i < d.teams@.len() && #[trigger] d.teams@[i].1.picks@.contains_key(k) implies d.teams@[i].1.picks@[k].hero_id
        != 0 by {
        lemma_details_have_no_empty_slots(d.teams@[i].1, team_source(entries, d.teams@[i].0)->0);
    }
    assert forall|i: int, k: u8|
        0 <= i < d.teams@.len() && #[trigger] d.teams@[i].1.bans@.contains_key(k) implies d.teams@[i].1.bans@[k].hero_id
        != 0 by {
        lemma_details_have_no_empty_slots(d.teams@[i].1, team_source(entries, d.teams@[i].0)->0);
    }
}

/// The keys that GSI writes for slot `n` (`pick{n}_id`, `pick{n}_class`,
/// `ban{n}_id`, `ban{n}_class`, with `n` in decimal) are read as that slot.
pub proof fn lemma_slot_keys_read_back(n: u8)
    ensures
        slot_key(word_pick() + decimal(n as nat) + word_id()) == Some(
            (SlotKind::Pick, n, SlotField::Id),
        ),
        slot_key(word_pick() + decimal(n as nat) + word_class()) == Some(
            (SlotKind::Pick, n, SlotField::Class),
        ),
        slot_key(word_ban() + decimal(n as nat) + word_id()) == Some(
            (SlotKind::Ban, n, SlotField::Id),
        ),
        slot_key(word_ban() + decimal(n as nat) + word_class()) == Some(
            (SlotKind::Ban, n, SlotField::Class),
        ),
{
    lemma_parse_u8_decimal(n);
    let d = decimal(n as nat);
    lemma_slot_rest_read_back(d, n);
    lemma_pick_key(d + word_id());
    lemma_pick_key(d + word_class());
    lemma_ban_key(d + word_id());
    lemma_ban_key(d + word_class());
    assert(word_pick() + d + word_id() =~= word_pick() + (d + word_id()));
    assert(word_pick() + d + word_class() =~= word_pick() + (d + word_class()));
    assert(word_ban() + d + word_id() =~= word_ban() + (d + word_id()));
    assert(word_ban() + d + word_class() =~= word_ban() + (d + word_class()));
}

/// A key starting with `pick` names a pick slot by what follows.
proof fn lemma_pick_key(rest: Seq<char>)
    ensures
        slot_key(word_pick() + rest) == match slot_rest(rest) {
            Some((i, f)) => Some((SlotKind::Pick, i, f)),
            None => None,
        },
{
    let k = word_pick() + rest;
    assert(k.take(4) =~= word_pick());
    assert(k.skip(4) =~= rest);
}

/// A key starting with `ban` names a ban slot by what follows.
proof fn lemma_ban_key(rest: Seq<char>)
    ensures
        slot_key(word_ban() + rest) == match slot_rest(rest) {
            Some((i, f)) => Some((SlotKind::Ban, i, f)),
            None => None,
        },
{
    let k = word_ban() + rest;
    assert(k[0] == 'b');
    assert(!has_prefix(k, word_pick())) by {
        if has_prefix(k, word_pick()) {
            assert(k.take(4)[0] == k[0]);
        }
    }
    assert(k.take(3) =~= word_ban());
    assert(k.skip(3) =~= rest);
}

/// What follows `pick` or `ban` in a GSI key names the slot and field.
proof fn lemma_slot_rest_read_back(d: Seq<char>, n: u8)
    requires
        parse_u8_spec(d) == Some(n),
    ensures
        slot_rest(d + word_id()) == Some((n, SlotField::Id)),
        slot_rest(d + word_class()) == Some((n, SlotField::Class)),
{
    let r1 = d + word_id();
    assert(r1.skip(r1.len() - 3) =~= word_id());
    assert(r1.take(r1.len() - 3) =~= d);
    let r2 = d + word_class();
    assert(r2.last() == 's');
    assert(!has_suffix(r2, word_id())) by {
        if has_suffix(r2, word_id()) {
            assert(r2.skip(r2.len() - 3)[2] == r2.last());
        }
    }
    assert(r2.skip(r2.len() - 6) =~= word_class());
    assert(r2.take(r2.len() - 6) =~= d);
}

} // verus!
