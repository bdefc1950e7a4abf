//! One session per peer: its state, its queued outbound message and its
//! transcript.

use crate::framing::{marker, marker_bytes};
use vstd::prelude::*;
use vstd::utf8::encode_utf8;

verus! {

/// One transcript entry.
pub enum Entry {
    /// Written by the operator.
    Outbound(String),
    /// Reported by the peer.
    Inbound(String),
}

/// The mathematical content of an [`Entry`].
pub enum EntryView {
    Outbound(Seq<char>),
    Inbound(Seq<char>),
}

impl View for Entry {
    type V = EntryView;

    open spec fn view(&self) -> EntryView {
        match self {
            Entry::Outbound(s) => EntryView::Outbound(s@),
            Entry::Inbound(s) => EntryView::Inbound(s@),
        }
    }
}

/// Whether the operator may write to the peer, or waits for its answer to
/// the queued message.
pub enum SessionState {
    Idle,
    AwaitingReply(String),
}

/// The mathematical content of a [`Recipient`]: `pending` is the queued
/// outbound text, present exactly while the session awaits a reply.
pub struct RecipientView {
    pub label: Seq<char>,
    pub pending: Option<Seq<char>>,
    pub history: Seq<EntryView>,
    pub scroll: u16,
    pub auto_scroll: bool,
}

impl RecipientView {
    /// A queued message is never empty.
    pub open spec fn wf(self) -> bool {
        self.pending matches Some(t) ==> t.len() > 0
    }

    pub open spec fn is_idle(self) -> bool {
        self.pending is None
    }
}

/// A new session: idle, nothing queued, empty transcript.
pub open spec fn fresh_session(label: Seq<char>) -> RecipientView {
    RecipientView { label, pending: None, history: seq![], scroll: 0, auto_scroll: true }
}

/// The operator submits `text`: taken only on an idle session and for
/// non-empty text, which is queued and written to the transcript.
pub open spec fn after_submit(r: RecipientView, text: Seq<char>) -> RecipientView {
    if r.pending is None && text.len() > 0 {
        RecipientView {
            pending: Some(text),
            history: r.history.push(EntryView::Outbound(text)),
            auto_scroll: true,
            ..r
        }
    } else {
        r
    }
}

/// The peer reports `text`: it is written to the transcript and the session
/// becomes idle, its queue cleared.
pub open spec fn after_message(r: RecipientView, text: Seq<char>) -> RecipientView {
    RecipientView { pending: None, history: r.history.push(EntryView::Inbound(text)), ..r }
}

/// The queued text as bytes; nothing when idle.
pub open spec fn queued_bytes(r: RecipientView) -> Seq<u8> {
    match r.pending {
        Some(t) => encode_utf8(t),
        None => seq![],
    }
}

/// The payload of every reply to the peer: the marker, then the queued text.
pub open spec fn outbound_payload(r: RecipientView) -> Seq<u8> {
    marker() + queued_bytes(r)
}

/// One line up, leaving automatic scrolling; nothing at the top.
pub open spec fn scrolled_up(r: RecipientView) -> RecipientView {
    if r.scroll > 0 {
        RecipientView { scroll: (r.scroll - 1) as u16, auto_scroll: false, ..r }
    } else {
        r
    }
}

/// One line down (saturating), leaving automatic scrolling.
pub open spec fn scrolled_down(r: RecipientView) -> RecipientView {
    RecipientView {
        scroll: if r.scroll < u16::MAX {
            (r.scroll + 1) as u16
        } else {
            u16::MAX
        },
        auto_scroll: false,
        ..r
    }
}

/// The scroll position once the transcript, `text_height` rows tall, is
/// shown in `inner_height` rows: at the top when it all fits; else at most
/// the last page, and on it when following the newest entry; reaching the
/// last page resumes following.
pub open spec fn fitted(r: RecipientView, text_height: u16, inner_height: u16) -> RecipientView {
    if text_height <= inner_height {
        RecipientView { scroll: 0, auto_scroll: true, ..r }
    } else {
        let last = (text_height - inner_height) as u16;
        let scroll = if r.auto_scroll || r.scroll > last {
            last
        } else {
            r.scroll
        };
        RecipientView { scroll, auto_scroll: r.auto_scroll || scroll == last, ..r }
    }
}

/// Per-peer session.
pub struct Recipient {
    label: String,
    state: SessionState,
    history: Vec<Entry>,
    scroll: u16,
    auto_scroll: bool,
}

impl View for Recipient {
    type V = RecipientView;

    closed spec fn view(&self) -> RecipientView {
        RecipientView {
            label: self.label@,
            pending: match self.state {
                SessionState::Idle => None,
                SessionState::AwaitingReply(t) => Some(t@),
            },
            history: self.history@.map_values(|e: Entry| e@),
            scroll: self.scroll,
            auto_scroll: self.auto_scroll,
        }
    }
}

impl Recipient {
    /// A new idle session for the peer `label`.
    pub fn new(label: &str) -> (r: Self)
        ensures
            r@ == fresh_session(label@),
    {
        let r = Recipient {
            label: label.to_owned(),
            state: SessionState::Idle,
            history: Vec::new(),
            scroll: 0,
            auto_scroll: true,
        };
        assert(r@.history =~= Seq::<EntryView>::empty());
        r
    }

    /// The peer's address, as displayed.
    pub fn label(&self) -> (r: &String)
        ensures
            r@ == self@.label,
    {
        &self.label
    }

    /// The transcript, oldest entry first.
    pub fn history(&self) -> (r: &Vec<Entry>)
        ensures
            r@.map_values(|e: Entry| e@) == self@.history,
    {
        &self.history
    }

    /// Whether the session awaits the peer's answer (operator input blocked).
    pub fn is_blocked(&self) -> (r: bool)
        ensures
            r == (self@.pending is Some),
    {
        match self.state {
            SessionState::Idle => false,
            SessionState::AwaitingReply(_) => true,
        }
    }

    /// First transcript line shown, counted from the top.
    pub fn scroll(&self) -> (r: u16)
        ensures
            r == self@.scroll,
    {
        self.scroll
    }

    /// Whether the transcript view follows the newest entry.
    pub fn auto_scroll(&self) -> (r: bool)
        ensures
            r == self@.auto_scroll,
    {
        self.auto_scroll
    }

    /// Appends `msg` as an entry reported by the peer.
    pub fn add_message(&mut self, msg: &str)
        ensures
            final(self)@ == (RecipientView {
                history: old(self)@.history.push(EntryView::Inbound(msg@)),
                ..old(self)@
            }),
    {
        self.history.push(Entry::Inbound(msg.to_owned()));
        assert(self@.history =~= old(self)@.history.push(EntryView::Inbound(msg@)));
    }

    /// The peer reported `text`: record it and unblock the session.
    pub fn receive(&mut self, text: String)
        ensures
            final(self)@ == after_message(old(self)@, text@),
            final(self)@.wf(),
    {
        self.add_message(text.as_str());
        self.state = SessionState::Idle;
    }

    /// The operator submits `text`; returns whether it was taken, which it is
    /// exactly when the session is idle and `text` is not empty.
    pub fn submit(&mut self, text: &String) -> (r: bool)
        requires
            old(self)@.wf(),
        ensures
            r == (old(self)@.is_idle() && text@.len() > 0),
            final(self)@ == after_submit(old(self)@, text@),
            final(self)@.wf(),
    {
        if self.is_blocked() || text.as_str().is_empty() {
            return false;
        }
        self.state = SessionState::AwaitingReply(text.clone());
        self.history.push(Entry::Outbound(text.clone()));
        self.auto_scroll = true;
        assert(self@.history =~= old(self)@.history.push(EntryView::Outbound(text@)));
        true
    }

    /// The payload of a reply to this peer: the marker and the queued text.
    pub fn outbound_payload(&self) -> (r: Vec<u8>)
        ensures
            r@ == outbound_payload(self@),
    {
        let mut r = marker_bytes();
        match &self.state {
            SessionState::Idle => {
                assert(r@ =~= outbound_payload(self@));
            },
            SessionState::AwaitingReply(t) => {
                let bytes = t.as_str().as_bytes();
                let ghost start = r@;
                let mut i: usize = 0;
                while i < bytes.len()
                    invariant
                        i <= bytes@.len(),
                        bytes@ == encode_utf8(t@),
                        start == marker(),
                        r@ == start + bytes@.subrange(0, i as int),
                    decreases bytes@.len() - i,
                {
                    r.push(bytes[i]);
                    i = i + 1;
                    assert(r@ =~= start + bytes@.subrange(0, i as int));
                }
                assert(bytes@.subrange(0, bytes@.len() as int) =~= bytes@);
            },
        }
        r
    }

    /// Scrolls the transcript one line up, leaving automatic scrolling.
    pub fn scroll_up(&mut self)
        ensures
            final(self)@ == scrolled_up(old(self)@),
    {
        if self.scroll > 0 {
            self.scroll = self.scroll - 1;
            self.auto_scroll = false;
        }
    }

    /// Scrolls the transcript one line down (saturating), leaving automatic
    /// scrolling.
    pub fn scroll_down(&mut self)
        ensures
            final(self)@ == scrolled_down(old(self)@),
    {
        self.scroll = self.scroll.saturating_add(1);
        self.auto_scroll = false;
    }

    /// Fits the scroll position to a transcript `text_height` rows tall
    /// shown in `inner_height` rows.
    pub fn fit_scroll(&mut self, text_height: u16, inner_height: u16)
        ensures
            final(self)@ == fitted(old(self)@, text_height, inner_height),
    {
        if text_height <= inner_height {
            self.scroll = 0;
            self.auto_scroll = true;
        } else {
            let last = text_height - inner_height;
            if self.auto_scroll || self.scroll > last {
                self.scroll = last;
            }
            if self.scroll == last {
                self.auto_scroll = true;
            }
        }
    }
}

} // verus!
