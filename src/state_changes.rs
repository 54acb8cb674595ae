//! Server-side subsystems whose changes the server reports while idling.

use vstd::prelude::*;
use crate::frame::{all_values, FieldsModel};
use crate::response::{MpdError, Response};
use crate::values::same_text;

verus! {

/// A subsystem that changed.
#[derive(Clone, Debug, PartialEq, Eq)]
pub enum Subsystem {
    Database,
    Message,
    Mixer,
    Mount,
    Neighbor,
    Options,
    Output,
    Partition,
    Player,
    /// The queue, called `playlist` by the server.
    Queue,
    Sticker,
    StoredPlaylist,
    Subscription,
    Update,
    /// A subsystem this library does not know by name.
    Other(String),
}

/// The subsystem of a known name, `None` for any other name.
pub open spec fn known_subsystem(s: Seq<char>) -> Option<Subsystem> {
    if s == "database"@ {
        Some(Subsystem::Database)
    } else if s == "message"@ {
        Some(Subsystem::Message)
    } else if s == "mixer"@ {
        Some(Subsystem::Mixer)
    } else if s == "mount"@ {
        Some(Subsystem::Mount)
    } else if s == "neighbor"@ {
        Some(Subsystem::Neighbor)
    } else if s == "options"@ {
        Some(Subsystem::Options)
    } else if s == "output"@ {
        Some(Subsystem::Output)
    } else if s == "partition"@ {
        Some(Subsystem::Partition)
    } else if s == "player"@ {
        Some(Subsystem::Player)
    } else if s == "playlist"@ {
        Some(Subsystem::Queue)
    } else if s == "sticker"@ {
        Some(Subsystem::Sticker)
    } else if s == "stored_playlist"@ {
        Some(Subsystem::StoredPlaylist)
    } else if s == "subscription"@ {
        Some(Subsystem::Subscription)
    } else if s == "update"@ {
        Some(Subsystem::Update)
    } else {
        None
    }
}

/// Whether `r` is the subsystem that the name `s` stands for.
pub open spec fn is_subsystem_of(r: Subsystem, s: Seq<char>) -> bool {
    match known_subsystem(s) {
        Some(k) => r == k,
        None => r matches Subsystem::Other(n) && n@ == s,
    }
}

impl Subsystem {
    /// The subsystem that the server's name `raw` stands for.
    pub fn from_raw_string(raw: String) -> (r: Subsystem)
        ensures
            is_subsystem_of(r, raw@),
    {
        let s = raw.as_str();
        if same_text(s, "database") {
            Subsystem::Database
        } else if same_text(s, "message") {
            Subsystem::Message
        } else if same_text(s, "mixer") {
            Subsystem::Mixer
        } else if same_text(s, "mount") {
            Subsystem::Mount
        } else if same_text(s, "neighbor") {
            Subsystem::Neighbor
        } else if same_text(s, "options") {
            Subsystem::Options
        } else if same_text(s, "output") {
            Subsystem::Output
        } else if same_text(s, "partition") {
            Subsystem::Partition
        } else if same_text(s, "player") {
            Subsystem::Player
        } else if same_text(s, "playlist") {
            Subsystem::Queue
        } else if same_text(s, "sticker") {
            Subsystem::Sticker
        } else if same_text(s, "stored_playlist") {
            Subsystem::StoredPlaylist
        } else if same_text(s, "subscription") {
            Subsystem::Subscription
        } else if same_text(s, "update") {
            Subsystem::Update
        } else {
            Subsystem::Other(raw)
        }
    }
}

/// What an idle frame reports: the names of its `changed` fields, in order.
pub open spec fn frame_changes(f: FieldsModel) -> Seq<Seq<char>> {
    all_values(f, "changed"@)
}

/// Read the response that ends an `idle`: one subsystem for each `changed` field, in
/// order, or the server's error.
pub fn response_to_subsystem(res: Response) -> (r: Result<Vec<Subsystem>, MpdError>)
    requires
        res.wf(),
    ensures
        res.frames@.len() == 0 ==> r == Err::<Vec<Subsystem>, MpdError>(res.error->0),
        res.frames@.len() > 0 ==> (r matches Ok(subs) && subs@.len() == frame_changes(
            res.frames@[0]@,
        ).len() && forall|i: int|
            0 <= i < subs@.len() ==> is_subsystem_of(
                #[trigger] subs@[i],
                frame_changes(res.frames@[0]@)[i],
            )),
{
    let frame = match res.single_frame() {
        Ok(f) => f,
        Err(e) => return Err(e),
    };
    let names = frame.values("changed");
    let mut out: Vec<Subsystem> = Vec::new();
    let mut i: usize = 0;
    while i < names.len()
        invariant
            i <= names@.len(),
            names@.len() == frame_changes(frame@).len(),
            forall|j: int| 0 <= j < names@.len() ==> #[trigger] names@[j]@ == frame_changes(frame@)[j],
            out@.len() == i,
            forall|j: int| 0 <= j < i ==> is_subsystem_of(#[trigger] out@[j], frame_changes(frame@)[j]),
        decreases names@.len() - i,
    {
        out.push(Subsystem::from_raw_string(names[i].clone()));
        i = i + 1;
    }
    Ok(out)
}

} // verus!
