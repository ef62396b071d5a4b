//! Small pieces of front-end state: where a picked image comes from, the
//! label of a keyboard shortcut, the one-shot paste flag, what to do with
//! the answer of the decoding worker, which raw key event is a hotkey, the
//! switches of the levels, and the order of a font list.
use crate::error::BlpError;
use crate::lang::range_is;
use vstd::prelude::*;

verus! {

/// Where the bytes of a picked image come from.
#[derive(Clone, Debug)]
pub enum FilePickInput {
    /// A file at this path, still to be read.
    Path(String),
    /// Bytes that are already in memory.
    Bytes(Vec<u8>),
}

/// The label of a command shortcut: the command sign on macOS, `Ctrl+`
/// elsewhere, followed by the key.
pub open spec fn spec_cmd_shortcut(key: Seq<char>, macos: bool) -> Seq<char> {
    if macos {
        "⌘"@ + key
    } else {
        "Ctrl+"@ + key
    }
}

/// The label of the shortcut that combines the platform's command key with
/// `key`.
pub fn platform_cmd_shortcut(key: &str, macos: bool) -> (r: String)
    ensures
        r@ == spec_cmd_shortcut(key@, macos),
{
    if macos {
        "⌘".to_owned().concat(key)
    } else {
        "Ctrl+".to_owned().concat(key)
    }
}

/// Takes the one-shot paste flag: tells whether a paste was signalled since
/// the flag was last taken, and clears it.
pub fn take_cmdv_event(flag: &mut bool) -> (r: bool)
    ensures
        r == *old(flag),
        *final(flag) == false,
{
    let was: bool = *flag;
    *flag = false;
    was
}

/// What the worker channel held when it was polled.
#[derive(Clone, Copy, Debug, PartialEq, Eq, Structural)]
pub enum WorkerAnswer {
    /// There is no channel to poll.
    NoChannel,
    /// The worker has not answered yet.
    Pending,
    /// The worker decoded the image.
    Decoded,
    /// The worker failed with this error.
    Failed(BlpError),
    /// The worker is gone without an answer.
    Disconnected,
}

/// What the front end does with the answer of a poll.
#[derive(Clone, Copy, Debug, PartialEq, Eq, Structural)]
pub enum PollAction {
    /// Nothing is loading; nothing to do.
    Idle,
    /// Keep the channel and poll again on the next frame.
    KeepWaiting,
    /// Stop loading; there is neither image nor error to show.
    GiveUp,
    /// Show the decoded image.
    ShowImage,
    /// Drop any image and show the error with this message key.
    ShowError(PollError),
}

/// The errors that a poll can surface.
#[derive(Clone, Copy, Debug, PartialEq, Eq, Structural)]
pub enum PollError {
    /// The decoder failed.
    Decoder(BlpError),
    /// The worker thread is gone.
    ThreadDisconnected,
}

/// The action for one poll of the decoding worker.
pub open spec fn spec_poll_action(loading: bool, answer: WorkerAnswer) -> PollAction {
    if !loading {
        PollAction::Idle
    } else {
        match answer {
            WorkerAnswer::NoChannel => PollAction::GiveUp,
            WorkerAnswer::Pending => PollAction::KeepWaiting,
            WorkerAnswer::Decoded => PollAction::ShowImage,
            WorkerAnswer::Failed(e) => PollAction::ShowError(PollError::Decoder(e)),
            WorkerAnswer::Disconnected => PollAction::ShowError(PollError::ThreadDisconnected),
        }
    }
}

/// Decides what to do after polling the decoding worker. The second part of
/// the result says whether the front end is still loading afterwards: only
/// while the worker has not answered.
pub fn poll_step(loading: bool, answer: WorkerAnswer) -> (r: (PollAction, bool))
    ensures
        r.0 == spec_poll_action(loading, answer),
        r.1 == (loading && answer == WorkerAnswer::Pending),
{
    if !loading {
        return (PollAction::Idle, false);
    }
    match answer {
        WorkerAnswer::NoChannel => (PollAction::GiveUp, false),
        WorkerAnswer::Pending => (PollAction::KeepWaiting, true),
        WorkerAnswer::Decoded => (PollAction::ShowImage, false),
        WorkerAnswer::Failed(e) => (PollAction::ShowError(PollError::Decoder(e)), false),
        WorkerAnswer::Disconnected => (
            PollAction::ShowError(PollError::ThreadDisconnected),
            false,
        ),
    }
}

/// Whether every level is switched on, so that the button "all" has
/// nothing left to do.
pub fn all_visible(mask: &[bool; 16]) -> (r: bool)
    ensures
        r == forall|i: int| 0 <= i < 16 ==> mask[i],
{
    let mut i: usize = 0;
    while i < 16
        invariant
            i <= 16,
            forall|j: int| 0 <= j < i ==> mask[j],
        decreases 16 - i,
    {
        if !mask[i] {
            return false;
        }
        i = i + 1;
    }
    true
}

/// Whether any level is switched on, so that the button "none" has
/// something to do.
pub fn any_visible(mask: &[bool; 16]) -> (r: bool)
    ensures
        r == exists|i: int| 0 <= i < 16 && mask[i],
{
    let mut i: usize = 0;
    while i < 16
        invariant
            i <= 16,
            forall|j: int| 0 <= j < i ==> !mask[j],
        decreases 16 - i,
    {
        if mask[i] {
            return true;
        }
        i = i + 1;
    }
    false
}

/// A key event as the window system reports it, reduced to what a hotkey
/// looks at.
#[derive(Clone, Copy, Debug, PartialEq, Eq, Structural)]
pub struct KeyEvent {
    /// The event is for the key of the hotkey.
    pub same_key: bool,
    /// The key went down, not up.
    pub pressed: bool,
    /// The event is an automatic repeat.
    pub repeat: bool,
    /// The command modifier of the platform is held.
    pub command: bool,
    /// The alt modifier is held.
    pub alt: bool,
}

/// Whether a raw key event counts as the hotkey: the first press of the key
/// with the command modifier and without alt. Shift may be held or not.
pub open spec fn spec_is_hotkey(e: KeyEvent) -> bool {
    e.same_key && e.pressed && !e.repeat && e.command && !e.alt
}

/// Whether one of the raw key events of a frame is the hotkey.
pub fn hotkey_in_events(events: &[KeyEvent]) -> (r: bool)
    ensures
        r == exists|i: int| 0 <= i < events@.len() && spec_is_hotkey(#[trigger] events@[i]),
{
    let mut i: usize = 0;
    while i < events.len()
        invariant
            i <= events@.len(),
            forall|j: int| 0 <= j < i ==> !spec_is_hotkey(#[trigger] events@[j]),
        decreases events@.len() - i,
    {
        let e: KeyEvent = events[i];
        if e.same_key && e.pressed && !e.repeat && e.command && !e.alt {
            return true;
        }
        i = i + 1;
    }
    false
}

/// The texts of a list of strings.
pub open spec fn spec_names(list: Seq<String>) -> Seq<Seq<char>> {
    Seq::new(list.len(), |i: int| list[i]@)
}

/// Position of the first entry at or after `k` that is `name`, or the
/// length of the list when there is none.
pub open spec fn spec_first_index(names: Seq<Seq<char>>, name: Seq<char>, k: int) -> int
    decreases names.len() - k,
{
    if k < 0 || k >= names.len() {
        names.len() as int
    } else if names[k] == name {
        k
    } else {
        spec_first_index(names, name, k + 1)
    }
}

/// The list with `name` in front and its first former entry of that name
/// taken out.
pub open spec fn spec_front_unique(names: Seq<Seq<char>>, name: Seq<char>) -> Seq<Seq<char>> {
    let pos = spec_first_index(names, name, 0);
    if pos < names.len() {
        seq![name] + names.remove(pos)
    } else {
        seq![name] + names
    }
}

/// Moves a font to the front of a family's list, so that it is tried first.
/// Nothing happens for a font that is not registered.
pub fn push_front_unique(list: &mut Vec<String>, name: &str, registered: bool)
    ensures
        registered ==> spec_names(final(list)@) == spec_front_unique(
            spec_names(old(list)@),
            name@,
        ),
        !registered ==> final(list)@ == old(list)@,
{
    if !registered {
        return ;
    }
    let ghost names = spec_names(list@);
    let n: usize = list.len();
    let mut pos: usize = 0;
    let mut found: bool = false;
    while pos < n && !found
        invariant
            pos <= n,
            n == list@.len(),
            list@ == old(list)@,
            names == spec_names(list@),
            spec_first_index(names, name@, pos as int) == spec_first_index(names, name@, 0),
            found ==> pos < n && names[pos as int] == name@,
        decreases n - pos + if found { 0int } else { 1int },
    {
        let entry: &str = list[pos].as_str();
        let len: usize = entry.unicode_len();
        assert(names[pos as int] == entry@);
        assert(entry@.subrange(0, len as int) =~= entry@);
        if range_is(entry, 0, len, name) {
            found = true;
        } else {
            pos = pos + 1;
        }
    }
    assert(pos == spec_first_index(names, name@, 0));
    if pos < n {
        let _gone = list.remove(pos);
        assert(spec_names(list@) =~= names.remove(pos as int));
    }
    let ghost rest = spec_names(list@);
    list.insert(0, name.to_owned());
    assert(spec_names(list@) =~= seq![name@] + rest);
}

} // verus!
