//! The event ledger: contact events ("memories"), their kinds, and the codec
//! used to store a participant list in a single text column.
//!
//! The ledger is the source of truth of the system: roster weights are only a
//! cache, recomputable by replaying every retained event in ascending id
//! order. The ledger is append-only; the one permitted deletion is of the
//! most recent event, as part of undo.

use vstd::prelude::*;
use vstd::string::StrSliceExecFns;
use vstd::string::StringExecFns;

use crate::roster::names_view;

verus! {

/// Kind of a contact event. Each kind carries a fixed reduction constant,
/// given by [`crate::projection::reduction_spec`].
#[derive(Clone, Copy, Debug, PartialEq, Eq, Structural)]
pub enum MemoryKind {
    Hangout,
    VideoCall,
    Call,
    Text,
}

/// Mathematical image of a ledger entry.
pub ghost struct MemoryModel {
    pub id: int,
    pub kind: MemoryKind,
    pub names: Seq<Seq<char>>,
}

/// One contact event of the ledger. `id` is assigned by the store on append
/// and is strictly increasing; `names` are the participants.
pub struct MemoryInfo {
    pub id: i64,
    pub kind: MemoryKind,
    pub names: Vec<String>,
}

impl View for MemoryInfo {
    type V = MemoryModel;

    open spec fn view(&self) -> MemoryModel {
        MemoryModel {
            id: self.id as int,
            kind: self.kind,
            names: names_view(self.names@),
        }
    }
}

/// A copy of a vector of names, value for value.
fn clone_names(names: &Vec<String>) -> (copied: Vec<String>)
    ensures
        copied@ == names@,
{
    let mut copied: Vec<String> = Vec::new();
    let mut i: usize = 0;
    while i < names.len()
        invariant
            i <= names@.len(),
            copied@ == names@.take(i as int),
        decreases names@.len() - i,
    {
        copied.push(names[i].clone());
        proof {
            assert(copied@ =~= names@.take(i as int + 1));
        }
        i += 1;
    }
    proof {
        assert(names@.take(names@.len() as int) =~= names@);
    }
    copied
}

impl Clone for MemoryInfo {
    fn clone(&self) -> (copied: Self)
        ensures
            copied@ == self@,
    {
        MemoryInfo { id: self.id, kind: self.kind, names: clone_names(&self.names) }
    }
}

/// The id of the most recent ledger entry, if any. The ledger is kept in
/// ascending id order, so the most recent entry is the last one.
pub fn last_memory_id(memories: &Vec<MemoryInfo>) -> (r: Option<i64>)
    ensures
        memories@.len() == 0 ==> r is None,
        memories@.len() > 0 ==> r == Some(memories@.last().id),
{
    if memories.len() == 0 {
        None
    } else {
        Some(memories[memories.len() - 1].id)
    }
}


/// The participant names joined into one text column: names separated by a
/// single newline. The empty list serializes to the empty string.
pub open spec fn model_join(names: Seq<Seq<char>>) -> Seq<char>
    decreases names.len(),
{
    if names.len() == 0 {
        Seq::empty()
    } else if names.len() == 1 {
        names[0]
    } else {
        model_join(names.drop_last()) + seq!['\n'] + names.last()
    }
}

/// Splitting a non-empty text on newlines: one piece per separator plus one,
/// so a trailing newline yields a trailing empty piece.
pub open spec fn split_pieces(text: Seq<char>) -> Seq<Seq<char>>
    decreases text.len(),
{
    if text.len() == 0 {
        seq![Seq::<char>::empty()]
    } else if text[0] == '\n' {
        seq![Seq::<char>::empty()] + split_pieces(text.drop_first())
    } else {
        let rest = split_pieces(text.drop_first());
        seq![seq![text[0]] + rest[0]] + rest.drop_first()
    }
}

/// What the stored text column decodes to: no names at all for the empty
/// string, otherwise the newline-separated pieces.
pub open spec fn model_split(text: Seq<char>) -> Seq<Seq<char>> {
    if text.len() == 0 {
        Seq::empty()
    } else {
        split_pieces(text)
    }
}

/// Peeling the first piece off a split: up to the first separator — here, up
/// to index `i`, with no separator before it — the text is one piece, and the
/// rest splits on its own.
proof fn lemma_split_pieces_step(text: Seq<char>, i: int)
    requires
        0 <= i <= text.len(),
        forall|j: int| 0 <= j < i ==> text[j] != '\n',
    ensures
        i == text.len() ==> split_pieces(text) == seq![text],
        i < text.len() && text[i] == '\n' ==> split_pieces(text) == seq![text.take(i)]
            + split_pieces(text.skip(i + 1)),
    decreases i,
{
    if i == 0 {
        if i == text.len() {
            assert(text =~= Seq::<char>::empty());
            assert(split_pieces(text) =~= seq![text]);
        } else if text[0] == '\n' {
            assert(text.take(0) =~= Seq::<char>::empty());
            assert(text.drop_first() =~= text.skip(1));
        }
    } else {
        let tail = text.drop_first();
        assert forall|j: int| 0 <= j < i - 1 implies tail[j] != '\n' by {
            assert(tail[j] == text[j + 1]);
        }
        lemma_split_pieces_step(tail, i - 1);
        let rest = split_pieces(tail);
        if i == text.len() {
            assert(rest == seq![tail]);
            assert(rest[0] == tail);
            assert(rest.drop_first() =~= Seq::<Seq<char>>::empty());
            assert(seq![text[0]] + tail =~= text);
            assert(split_pieces(text) =~= seq![text]);
        } else if text[i] == '\n' {
            assert(tail[i - 1] == text[i]);
            assert(rest == seq![tail.take(i - 1)] + split_pieces(tail.skip(i)));
            assert(rest[0] == tail.take(i - 1));
            assert(rest.drop_first() =~= split_pieces(tail.skip(i)));
            assert(seq![text[0]] + tail.take(i - 1) =~= text.take(i));
            assert(tail.skip(i) =~= text.skip(i + 1));
            assert(split_pieces(text) =~= seq![text.take(i)] + split_pieces(text.skip(i + 1)));
        }
    }
}

/// Joins participant names with single newlines, for storage in one text
/// column.
#[verifier::loop_isolation(false)]
pub fn serialize_memory_names(names: &Vec<String>) -> (joined: String)
    ensures
        joined@ == model_join(names_view(names@)),
{
    let ghost ns = names_view(names@);
    let mut joined = String::new();
    let mut i: usize = 0;
    while i < names.len()
        invariant
            i <= names@.len(),
            joined@ == model_join(ns.take(i as int)),
        decreases names@.len() - i,
    {
        proof {
            reveal_strlit("\n");
            assert("\n"@ =~= seq!['\n']);
            assert(ns.take(i as int + 1).drop_last() =~= ns.take(i as int));
            assert(ns.take(i as int + 1).last() == ns[i as int]);
        }
        if i > 0 {
            joined.append("\n");
        }
        joined.append(names[i].as_str());
        proof {
            if i == 0 {
                assert(joined@ =~= ns[0]);
                assert(ns.take(1) =~= seq![ns[0]]);
                assert(model_join(ns.take(1)) == ns.take(1)[0]);
            }
        }
        i += 1;
    }
    proof {
        assert(ns.take(ns.len() as int) =~= ns);
    }
    joined
}

/// Splits a stored text column back into participant names: the empty string
/// decodes to no names, otherwise one name per newline-separated piece.
#[verifier::loop_isolation(false)]
pub fn deserialize_memory_names(names: &str) -> (parsed: Vec<String>)
    ensures
        names_view(parsed@) == model_split(names@),
{
    let mut parsed: Vec<String> = Vec::new();
    let text_len: usize = names.unicode_len();
    if text_len == 0 {
        proof {
            assert(names_view(parsed@) =~= model_split(names@));
        }
        return parsed;
    }
    let mut start: usize = 0;
    let mut i: usize = 0;
    proof {
        assert(names@.skip(0) =~= names@);
        assert(names_view(parsed@) + split_pieces(names@) =~= split_pieces(names@));
    }
    while i < text_len
        invariant
            start <= i <= text_len,
            text_len == names@.len(),
            forall|j: int| start <= j < i ==> names@[j] != '\n',
            split_pieces(names@) == names_view(parsed@) + split_pieces(names@.skip(start as int)),
        decreases text_len - i,
    {
        if names.get_char(i) == '\n' {
            let piece: String = names.substring_char(start, i).to_owned();
            let ghost prev = parsed@;
            parsed.push(piece);
            proof {
                let suffix = names@.skip(start as int);
                assert forall|j: int| 0 <= j < i - start implies suffix[j] != '\n' by {
                    assert(suffix[j] == names@[start + j]);
                }
                assert(suffix[i - start as int] == names@[i as int]);
                lemma_split_pieces_step(suffix, i - start as int);
                assert(suffix.take(i - start as int) =~= names@.subrange(start as int, i as int));
                assert(suffix.skip(i - start as int + 1) =~= names@.skip(i as int + 1));
                assert(names_view(parsed@) =~= names_view(prev).push(
                    names@.subrange(start as int, i as int),
                ));
                assert(names_view(prev).push(names@.subrange(start as int, i as int))
                    + split_pieces(names@.skip(i as int + 1)) =~= names_view(prev) + (seq![
                    names@.subrange(start as int, i as int),
                ] + split_pieces(names@.skip(i as int + 1))));
            }
            start = i + 1;
        }
        i += 1;
    }
    let piece: String = names.substring_char(start, text_len).to_owned();
    let ghost prev = parsed@;
    parsed.push(piece);
    proof {
        let suffix = names@.skip(start as int);
        assert forall|j: int| 0 <= j < text_len - start implies suffix[j] != '\n' by {
            assert(suffix[j] == names@[start + j]);
        }
        lemma_split_pieces_step(suffix, text_len - start as int);
        assert(suffix =~= names@.subrange(start as int, text_len as int));
        assert(names_view(parsed@) =~= names_view(prev).push(suffix));
        assert(names_view(prev) + (seq![suffix] + Seq::<Seq<char>>::empty()) =~= names_view(
            parsed@,
        ));
        assert(seq![suffix] + Seq::<Seq<char>>::empty() =~= seq![suffix]);
        assert(names_view(prev) + seq![suffix] =~= names_view(parsed@));
    }
    parsed
}


/// The text label each event kind is stored under.
pub open spec fn spec_kind_label(kind: MemoryKind) -> Seq<char> {
    match kind {
        MemoryKind::Hangout => "hangout"@,
        MemoryKind::VideoCall => "video-call"@,
        MemoryKind::Call => "call"@,
        MemoryKind::Text => "text"@,
    }
}

/// The event kind a stored label names: the four known labels and nothing
/// else.
pub open spec fn spec_kind_from(label: Seq<char>) -> Option<MemoryKind> {
    if label == "hangout"@ {
        Some(MemoryKind::Hangout)
    } else if label == "video-call"@ {
        Some(MemoryKind::VideoCall)
    } else if label == "call"@ {
        Some(MemoryKind::Call)
    } else if label == "text"@ {
        Some(MemoryKind::Text)
    } else {
        None
    }
}

/// The label an event kind is stored under.
pub fn kind_label(kind: MemoryKind) -> (label: String)
    ensures
        label@ == spec_kind_label(kind),
{
    match kind {
        MemoryKind::Hangout => String::from_str("hangout"),
        MemoryKind::VideoCall => String::from_str("video-call"),
        MemoryKind::Call => String::from_str("call"),
        MemoryKind::Text => String::from_str("text"),
    }
}

/// Parses a stored kind label.
pub fn kind_from_str(label: &String) -> (kind: Option<MemoryKind>)
    ensures
        kind == spec_kind_from(label@),
{
    if label.eq(&String::from_str("hangout")) {
        Some(MemoryKind::Hangout)
    } else if label.eq(&String::from_str("video-call")) {
        Some(MemoryKind::VideoCall)
    } else if label.eq(&String::from_str("call")) {
        Some(MemoryKind::Call)
    } else if label.eq(&String::from_str("text")) {
        Some(MemoryKind::Text)
    } else {
        None
    }
}

/// A kind's stored label always parses back to the same kind: the ledger's
/// kind column round-trips.
pub proof fn lemma_kind_label_round_trip(kind: MemoryKind)
    ensures
        spec_kind_from(spec_kind_label(kind)) == Some(kind),
{
    reveal_strlit("hangout");
    reveal_strlit("video-call");
    reveal_strlit("call");
    reveal_strlit("text");
    assert("hangout"@.len() == 7);
    assert("video-call"@.len() == 10);
    assert("call"@.len() == 4);
    assert("text"@.len() == 4);
    assert("call"@[0] == 'c');
    assert("text"@[0] == 't');
}

} // verus!
