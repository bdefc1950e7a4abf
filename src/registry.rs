//! The ordered registry of sessions, keyed by peer address, together with
//! the operator's selection and input line.

use crate::session::{
    after_message, after_submit, fitted, fresh_session, outbound_payload, scrolled_down,
    scrolled_up, Recipient, RecipientView,
};
use vstd::prelude::*;

verus! {

/// The mathematical content of an [`App`].
pub struct AppView {
    pub sessions: Seq<RecipientView>,
    pub selected: nat,
    pub input: Seq<char>,
}

impl AppView {
    /// Every session well formed, and no two sessions for one peer.
    pub open spec fn wf(self) -> bool {
        &&& forall|i: int| 0 <= i < self.sessions.len() ==> #[trigger] self.sessions[i].wf()
        &&& labels_distinct(self.sessions)
    }

    /// Whether the selection points at a session.
    pub open spec fn has_selection(self) -> bool {
        self.selected < self.sessions.len()
    }

    /// The selected session.
    pub open spec fn current(self) -> RecipientView {
        self.sessions[self.selected as int]
    }

    /// The registry with the selected session replaced by `r`.
    pub open spec fn with_current(self, r: RecipientView) -> AppView {
        AppView { sessions: self.sessions.update(self.selected as int, r), ..self }
    }
}

/// No two sessions share a label.
pub open spec fn labels_distinct(s: Seq<RecipientView>) -> bool {
    forall|i: int, j: int|
        0 <= i < s.len() && 0 <= j < s.len() && i != j ==> #[trigger] s[i].label
            != #[trigger] s[j].label
}

/// Whether some session belongs to the peer `label`.
pub open spec fn has_label(s: Seq<RecipientView>, label: Seq<char>) -> bool {
    exists|i: int| 0 <= i < s.len() && #[trigger] s[i].label == label
}

/// The position of the session of the peer `label`.
pub open spec fn index_of(s: Seq<RecipientView>, label: Seq<char>) -> int {
    choose|i: int| 0 <= i < s.len() && #[trigger] s[i].label == label
}

/// The sessions once the peer `label` is known: unchanged if it already
/// has a session, else with a fresh one appended after all others.
pub open spec fn registered(s: Seq<RecipientView>, label: Seq<char>) -> Seq<RecipientView> {
    if has_label(s, label) {
        s
    } else {
        s.push(fresh_session(label))
    }
}

/// The sessions once the operator submitted `text` to the peer `label`.
pub open spec fn submitted_to(s: Seq<RecipientView>, label: Seq<char>, text: Seq<char>) -> Seq<
    RecipientView,
> {
    if has_label(s, label) {
        s.update(index_of(s, label), after_submit(s[index_of(s, label)], text))
    } else {
        s
    }
}

/// Sessions that keep each label, and either keep their queued message or
/// are well formed, keep the registry well formed.
proof fn lemma_wf_kept(a: AppView, b: AppView)
    requires
        a.wf(),
        b.sessions.len() == a.sessions.len(),
        forall|i: int|
            0 <= i < a.sessions.len() ==> (#[trigger] b.sessions[i]).label == a.sessions[i].label
                && (b.sessions[i].pending == a.sessions[i].pending || b.sessions[i].wf()),
    ensures
        b.wf(),
{
    let n = b.sessions.len();
    assert forall|i: int, j: int|
        0 <= i < n && 0 <= j < n && i != j implies #[trigger] b.sessions[i].label
            != #[trigger] b.sessions[j].label by {
        assert(a.sessions[i].label != a.sessions[j].label);
    }
    assert forall|i: int| 0 <= i < b.sessions.len() implies #[trigger] b.sessions[i].wf() by {
        assert(a.sessions[i].wf());
    }
}

/// The registry of sessions, in order of first contact, with the operator's
/// selected session and input line.
pub struct App {
    recipients: Vec<Recipient>,
    selected: usize,
    input: String,
}

impl View for App {
    type V = AppView;

    closed spec fn view(&self) -> AppView {
        AppView {
            sessions: self.recipients@.map_values(|r: Recipient| r@),
            selected: self.selected as nat,
            input: self.input@,
        }
    }
}

/// Relies on String::push: appends one character.
#[verifier::external_body]
fn push_char(s: &mut String, c: char)
    ensures
        final(s)@ == old(s)@.push(c),
{
    s.push(c)
}

/// Relies on String::pop: removes the last character, if any.
#[verifier::external_body]
fn pop_char(s: &mut String)
    ensures
        final(s)@ == (if old(s)@.len() > 0 {
            old(s)@.drop_last()
        } else {
            old(s)@
        }),
{
    s.pop();
}

impl App {
    /// An empty registry, the first session selected, no input.
    pub fn new() -> (r: Self)
        ensures
            r@ == (AppView { sessions: seq![], selected: 0, input: seq![] }),
            r@.wf(),
    {
        let r = App { recipients: Vec::new(), selected: 0, input: String::new() };
        assert(r@.sessions =~= Seq::<RecipientView>::empty());
        r
    }

    /// The sessions, in order of first contact.
    pub fn recipients(&self) -> (r: &Vec<Recipient>)
        ensures
            r@.map_values(|x: Recipient| x@) == self@.sessions,
    {
        &self.recipients
    }

    /// Index of the selected session.
    pub fn selected(&self) -> (r: usize)
        ensures
            r == self@.selected,
    {
        self.selected
    }

    /// The operator's input line.
    pub fn input(&self) -> (r: &String)
        ensures
            r@ == self@.input,
    {
        &self.input
    }

    /// Position of the session of the peer `label`, if it has one.
    pub fn find(&self, label: &String) -> (r: Option<usize>)
        requires
            self@.wf(),
        ensures
            r is None <==> !has_label(self@.sessions, label@),
            r matches Some(i) ==> i == index_of(self@.sessions, label@) && i
                < self@.sessions.len(),
    {
        let ghost s = self@.sessions;
        let mut i: usize = 0;
        while i < self.recipients.len()
            invariant
                s == self@.sessions,
                s.len() == self.recipients@.len(),
                self@.wf(),
                i <= s.len(),
                forall|j: int| 0 <= j < i ==> s[j].label != label@,
            decreases s.len() - i,
        {
            assert(s[i as int] == self.recipients@[i as int]@);
            if self.recipients[i].label().eq(label) {
                assert(s[i as int].label == label@);
                let ghost k = index_of(s, label@);
                assert(s[k].label == label@);
                return Some(i);
            }
            i = i + 1;
        }
        None
    }

    /// Position of the session of the peer `label`, created idle with an
    /// empty transcript after all others if the peer is new.
    pub fn lookup_or_create(&mut self, label: &String) -> (r: usize)
        requires
            old(self)@.wf(),
        ensures
            final(self)@ == (AppView {
                sessions: registered(old(self)@.sessions, label@),
                ..old(self)@
            }),
            final(self)@.wf(),
            r == index_of(final(self)@.sessions, label@),
            r < final(self)@.sessions.len(),
            final(self)@.sessions[r as int].label == label@,
    {
        match self.find(label) {
            Some(i) => i,
            None => {
                let ghost s = self@.sessions;
                self.recipients.push(Recipient::new(label.as_str()));
                let n = self.recipients.len() - 1;
                assert(self@.sessions =~= s.push(fresh_session(label@)));
                assert(self@.sessions[n as int].label == label@);
                let ghost k = index_of(self@.sessions, label@);
                assert(self@.sessions[k].label == label@);
                n
            },
        }
    }

    /// The session at `idx` receives `text` from its peer.
    pub fn receive(&mut self, idx: usize, text: String)
        requires
            old(self)@.wf(),
            idx < old(self)@.sessions.len(),
        ensures
            final(self)@ == (AppView {
                sessions: old(self)@.sessions.update(
                    idx as int,
                    after_message(old(self)@.sessions[idx as int], text@),
                ),
                ..old(self)@
            }),
            final(self)@.wf(),
    {
        let ghost s = self@.sessions;
        self.recipients[idx].receive(text);
        assert(self@.sessions =~= s.update(
            idx as int,
            after_message(s[idx as int], text@),
        ));
    }

    /// The payload of a reply to the peer of the session at `idx`.
    pub fn outbound_payload(&self, idx: usize) -> (r: Vec<u8>)
        requires
            idx < self@.sessions.len(),
        ensures
            r@ == outbound_payload(self@.sessions[idx as int]),
    {
        self.recipients[idx].outbound_payload()
    }

    /// Whether the operator may type: a session is selected and idle.
    pub fn can_type(&self) -> (r: bool)
        ensures
            r == (self@.selected < self@.sessions.len()
                && self@.sessions[self@.selected as int].is_idle()),
    {
        self.selected < self.recipients.len() && !self.recipients[self.selected].is_blocked()
    }

    /// Appends `c` to the input line, if the selected session is idle.
    pub fn handle_char(&mut self, c: char)
        requires
            old(self)@.wf(),
        ensures
            final(self)@.wf(),
            final(self)@ == (if old(self)@.has_selection() && old(self)@.current().is_idle() {
                AppView { input: old(self)@.input.push(c), ..old(self)@ }
            } else {
                old(self)@
            }),
    {
        if self.can_type() {
            push_char(&mut self.input, c);
        }
        proof {
            lemma_wf_kept(old(self)@, self@);
        }
    }

    /// Removes the last character of the input line.
    pub fn backspace(&mut self)
        requires
            old(self)@.wf(),
        ensures
            final(self)@.wf(),
            final(self)@ == (AppView {
                input: if old(self)@.input.len() > 0 {
                    old(self)@.input.drop_last()
                } else {
                    old(self)@.input
                },
                ..old(self)@
            }),
    {
        pop_char(&mut self.input);
        proof {
            lemma_wf_kept(old(self)@, self@);
        }
    }

    /// The operator submits `text` to the session of the peer `label`;
    /// returns whether it was taken, which it is exactly when that session
    /// exists, is idle and `text` is not empty.
    pub fn submit(&mut self, label: &String, text: &String) -> (r: bool)
        requires
            old(self)@.wf(),
        ensures
            final(self)@.wf(),
            r == (has_label(old(self)@.sessions, label@) && old(self)@.sessions[index_of(
                old(self)@.sessions,
                label@,
            )].is_idle() && text@.len() > 0),
            final(self)@ == (AppView {
                sessions: submitted_to(old(self)@.sessions, label@, text@),
                ..old(self)@
            }),
    {
        match self.find(label) {
            None => false,
            Some(i) => {
                let ghost s = self@.sessions;
                assert(s[i as int] == self.recipients@[i as int]@);
                let taken = self.recipients[i].submit(text);
                assert(self@.sessions =~= s.update(i as int, after_submit(s[i as int], text@)));
                proof {
                    lemma_wf_kept(old(self)@, self@);
                }
                taken
            },
        }
    }

    /// Submits the input line to the selected session: when that session is
    /// idle and the line is not empty, the line is queued and recorded and
    /// the input cleared; otherwise nothing changes.
    pub fn submit_message(&mut self)
        requires
            old(self)@.wf(),
        ensures
            final(self)@.wf(),
            final(self)@ == (if old(self)@.has_selection() && old(self)@.current().is_idle()
                && old(self)@.input.len() > 0 {
                AppView {
                    input: seq![],
                    ..old(self)@.with_current(after_submit(old(self)@.current(), old(self)@.input))
                }
            } else {
                old(self)@
            }),
    {
        let ghost s = self@.sessions;
        let sel = self.selected;
        if sel < self.recipients.len() {
            assert(s[sel as int] == self.recipients@[sel as int]@);
            let taken = self.recipients[sel].submit(&self.input);
            if taken {
                self.input = String::new();
                assert(self@.sessions =~= s.update(
                    sel as int,
                    after_submit(s[sel as int], old(self)@.input),
                ));
                assert(self@.input =~= Seq::<char>::empty());
            } else {
                assert(self@.sessions =~= s);
            }
        }
    }

    /// Selects the previous session.
    pub fn navigate_up(&mut self)
        requires
            old(self)@.wf(),
        ensures
            final(self)@.wf(),
            final(self)@ == (if old(self)@.sessions.len() > 0 && old(self)@.selected > 0 {
                AppView { selected: (old(self)@.selected - 1) as nat, ..old(self)@ }
            } else {
                old(self)@
            }),
    {
        if self.recipients.len() > 0 && self.selected > 0 {
            self.selected = self.selected - 1;
        }
        proof {
            lemma_wf_kept(old(self)@, self@);
        }
    }

    /// Selects the next session, if there is one.
    pub fn navigate_down(&mut self)
        requires
            old(self)@.wf(),
        ensures
            final(self)@.wf(),
            final(self)@ == (if old(self)@.selected + 1 < old(self)@.sessions.len() {
                AppView { selected: old(self)@.selected + 1, ..old(self)@ }
            } else {
                old(self)@
            }),
    {
        if self.selected < self.recipients.len() && self.selected + 1 < self.recipients.len() {
            self.selected = self.selected + 1;
        }
        proof {
            lemma_wf_kept(old(self)@, self@);
        }
    }

    /// Scrolls the selected session's transcript one line up.
    pub fn scroll_up(&mut self)
        requires
            old(self)@.wf(),
        ensures
            final(self)@.wf(),
            final(self)@ == (if old(self)@.has_selection() {
                old(self)@.with_current(scrolled_up(old(self)@.current()))
            } else {
                old(self)@
            }),
    {
        let ghost s = self@.sessions;
        let sel = self.selected;
        if sel < self.recipients.len() {
            assert(s[sel as int] == self.recipients@[sel as int]@);
            self.recipients[sel].scroll_up();
            assert(self@.sessions =~= s.update(sel as int, scrolled_up(s[sel as int])));
        }
        proof {
            lemma_wf_kept(old(self)@, self@);
        }
    }

    /// Scrolls the selected session's transcript one line down.
    pub fn scroll_down(&mut self)
        requires
            old(self)@.wf(),
        ensures
            final(self)@.wf(),
            final(self)@ == (if old(self)@.has_selection() {
                old(self)@.with_current(scrolled_down(old(self)@.current()))
            } else {
                old(self)@
            }),
    {
        let ghost s = self@.sessions;
        let sel = self.selected;
        if sel < self.recipients.len() {
            assert(s[sel as int] == self.recipients@[sel as int]@);
            self.recipients[sel].scroll_down();
            assert(self@.sessions =~= s.update(sel as int, scrolled_down(s[sel as int])));
        }
        proof {
            lemma_wf_kept(old(self)@, self@);
        }
    }

    /// Fits the selected session's scroll position to a transcript
    /// `text_height` rows tall shown in `inner_height` rows.
    pub fn fit_scroll(&mut self, text_height: u16, inner_height: u16)
        requires
            old(self)@.wf(),
        ensures
            final(self)@.wf(),
            final(self)@ == (if old(self)@.has_selection() {
                old(self)@.with_current(fitted(old(self)@.current(), text_height, inner_height))
            } else {
                old(self)@
            }),
    {
        let ghost s = self@.sessions;
        let sel = self.selected;
        if sel < self.recipients.len() {
            assert(s[sel as int] == self.recipients@[sel as int]@);
            self.recipients[sel].fit_scroll(text_height, inner_height);
            assert(self@.sessions =~= s.update(
                sel as int,
                fitted(s[sel as int], text_height, inner_height),
            ));
        }
        proof {
            lemma_wf_kept(old(self)@, self@);
        }
    }
}

} // verus!
