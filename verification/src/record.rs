//! The data model of a reconstructed game record: messages, phases, the
//! final game artifact, the error taxonomy, and the spec-level views that
//! contracts are stated over.

use vstd::prelude::*;
use indexmap::IndexMap;
use crate::imap::{dist_entries, lookup, insert_entry};

verus! {

/// A diplomatic message: sender and recipient power codes and the text.
pub struct Message {
    pub sender: String,
    pub recipient: String,
    pub message: String,
}

/// Spec view of a message.
#[verifier::ext_equal]
pub struct MessageV {
    pub sender: Seq<char>,
    pub recipient: Seq<char>,
    pub message: Seq<char>,
}

pub open spec fn message_view(m: Message) -> MessageV {
    MessageV { sender: m.sender@, recipient: m.recipient@, message: m.message@ }
}

pub open spec fn messages_view(v: Seq<Message>) -> Seq<MessageV> {
    v.map_values(|m: Message| message_view(m))
}

/// One phase of the game: its messages, and snapshots of the running unit
/// and ownership tables taken when the next phase boundary was recognized.
pub struct Phase {
    pub messages: Vec<Message>,
    pub units: IndexMap<String, Vec<String>>,
    pub scs: IndexMap<String, Vec<String>>,
}

/// Spec view of a phase: tables are ordered key/value pair sequences.
#[verifier::ext_equal]
pub struct PhaseV {
    pub messages: Seq<MessageV>,
    pub units: Seq<(Seq<char>, Seq<Seq<char>>)>,
    pub scs: Seq<(Seq<char>, Seq<Seq<char>>)>,
}

pub open spec fn phase_view(p: Phase) -> PhaseV {
    PhaseV {
        messages: messages_view(p.messages@),
        units: dist_entries(p.units),
        scs: dist_entries(p.scs),
    }
}

/// What an `IndexMap<String, Phase>` holds: the phase views keyed by phase
/// identifier, in insertion order.
pub uninterp spec fn phase_entries(m: IndexMap<String, Phase>) -> Seq<(Seq<char>, PhaseV)>;

/// The final record for one transcript.
pub struct Game {
    pub phases: IndexMap<String, Phase>,
    pub moves: Vec<String>,
    pub status: String,
    pub summary: String,
}

/// Spec view of a game record.
#[verifier::ext_equal]
pub struct GameV {
    pub phases: Seq<(Seq<char>, PhaseV)>,
    pub moves: Seq<Seq<char>>,
    pub status: Seq<char>,
    pub summary: Seq<char>,
}

pub open spec fn game_view(g: Game) -> GameV {
    GameV {
        phases: phase_entries(g.phases),
        moves: g.moves.deep_view(),
        status: g.status@,
        summary: g.summary@,
    }
}

/// An unrecoverable input-format violation: the transcript is malformed
/// beyond safe recovery and its record is not produced.
#[derive(Clone, Copy, Debug, PartialEq, Eq, Structural)]
pub enum FatalError {
    /// A line carries neither directional marker.
    MissingDirectionMarker,
    /// A directed line's first character is not in the power registry.
    UnknownOriginPower,
    /// A directed send payload is below the minimum length.
    ShortSendPayload,
    /// A non-year parenthesized group in a phase-boundary payload is too
    /// short to carry a unit position.
    ShortUnitGroup,
    /// The preprocessed transcript is shorter than the registry prefix.
    TruncatedRegistry,
}

/// Relies on `indexmap::IndexMap::new`: a new map is empty.
#[verifier::external_body]
pub(crate) fn ph_new() -> (r: IndexMap<String, Phase>)
    ensures
        phase_entries(r).len() == 0,
{
    IndexMap::new()
}

/// Relies on `indexmap::IndexMap::insert`: an existing key retains its place
/// in the order and its value is updated; a new key is inserted last.
#[verifier::external_body]
pub(crate) fn ph_insert(m: &mut IndexMap<String, Phase>, k: String, v: Phase)
    ensures
        phase_entries(*final(m)) == insert_entry(phase_entries(*old(m)), k@, phase_view(v)),
{
    m.insert(k, v);
}

/// Relies on `indexmap::IndexMap::len`: the number of pairs held.
#[verifier::external_body]
pub(crate) fn ph_len(m: &IndexMap<String, Phase>) -> (r: usize)
    ensures
        r == phase_entries(*m).len(),
{
    m.len()
}

/// Relies on `indexmap::IndexMap::get`: returns the value stored under the
/// key, or nothing when the key is absent.
#[verifier::external_body]
pub(crate) fn ph_get<'a>(m: &'a IndexMap<String, Phase>, k: &str) -> (r: Option<&'a Phase>)
    ensures
        match r {
            Some(p) => lookup(phase_entries(*m), k@) == Some(phase_view(*p)),
            None => lookup(phase_entries(*m), k@) is None,
        },
{
    m.get(k)
}

/// Relies on `indexmap::IndexMap::keys`: yields the keys in insertion
/// order.
#[verifier::external_body]
pub(crate) fn ph_keys(m: &IndexMap<String, Phase>) -> (r: Vec<String>)
    ensures
        r.deep_view() == crate::imap::entry_keys(phase_entries(*m)),
{
    let mut out: Vec<String> = Vec::new();
    for k in m.keys() {
        out.push(k.clone());
    }
    out
}

/// Looks a power's single-character session code up in a registry map.
pub fn registry_lookup(m: &IndexMap<String, String>, k: &str) -> (r: Option<String>)
    ensures
        match r {
            Some(v) => lookup(crate::imap::power_entries(*m), k@) == Some(v@),
            None => lookup(crate::imap::power_entries(*m), k@) is None,
        },
{
    crate::imap::pm_get(m, k)
}

/// Looks a power's entry up in a unit or ownership table.
pub fn table_lookup(m: &IndexMap<String, Vec<String>>, k: &str) -> (r: Option<Vec<String>>)
    ensures
        match r {
            Some(v) => lookup(dist_entries(*m), k@) == Some(v.deep_view()),
            None => lookup(dist_entries(*m), k@) is None,
        },
{
    crate::imap::dist_get(m, k)
}

/// The entries of a unit or ownership table, in insertion order.
pub fn table_items(m: &IndexMap<String, Vec<String>>) -> (r: Vec<(String, Vec<String>)>)
    ensures
        r.deep_view() == dist_entries(*m),
{
    crate::imap::dist_items(m)
}

impl Game {
    /// How many phases the record holds.
    pub fn phase_count(&self) -> (r: usize)
        ensures
            r == phase_entries(self.phases).len(),
    {
        ph_len(&self.phases)
    }

    /// The phase identifiers, in insertion (chronological) order.
    pub fn phase_names(&self) -> (r: Vec<String>)
        ensures
            r.deep_view() == crate::imap::entry_keys(phase_entries(self.phases)),
    {
        ph_keys(&self.phases)
    }

    /// The phase stored under an identifier, if any.
    pub fn phase_get<'a>(&'a self, k: &str) -> (r: Option<&'a Phase>)
        ensures
            match r {
                Some(p) => lookup(phase_entries(self.phases), k@) == Some(phase_view(*p)),
                None => lookup(phase_entries(self.phases), k@) is None,
            },
    {
        ph_get(&self.phases, k)
    }
}

/// Copies a message field by field.
pub fn copy_message(m: &Message) -> (r: Message)
    ensures
        message_view(r) == message_view(*m),
{
    Message { sender: m.sender.clone(), recipient: m.recipient.clone(), message: m.message.clone() }
}

/// Copies a message list, keeping order and contents.
pub fn copy_messages(v: &Vec<Message>) -> (r: Vec<Message>)
    ensures
        messages_view(r@) == messages_view(v@),
{
    let mut out: Vec<Message> = Vec::new();
    let n = v.len();
    let mut i: usize = 0;
    while i < n
        invariant
            0 <= i <= n,
            n == v@.len(),
            out@.len() == i,
            forall|k: int| 0 <= k < i ==> message_view(#[trigger] out@[k]) == message_view(v@[k]),
        decreases n - i,
    {
        out.push(copy_message(&v[i]));
        i = i + 1;
    }
    proof {
        assert(messages_view(out@) =~= messages_view(v@));
    }
    out
}

/// Takes a snapshot of a phase: same messages, and copies of the running
/// tables as they stand.
pub fn snapshot_phase(p: &Phase) -> (r: Phase)
    ensures
        phase_view(r) == phase_view(*p),
{
    Phase {
        messages: copy_messages(&p.messages),
        units: crate::imap::dist_clone(&p.units),
        scs: crate::imap::dist_clone(&p.scs),
    }
}

} // verus!
