//! Chat-session state: per-session message histories, the user message
//! assembled from a question and its retrieved references, and the local
//! model's prompt rendering.

use vstd::prelude::*;

use crate::jsontext::spec_context_json;
use crate::strtools::str_eq;
use crate::types::EmbeddingVectorValue;

verus! {

/// Who a chat message comes from.
#[derive(Clone, Copy, Debug, PartialEq, Eq, Structural)]
pub enum MessageType {
    System,
    User,
    Assistant,
}

impl MessageType {
    pub open spec fn spec_label(&self) -> Seq<char> {
        match self {
            MessageType::System => "system"@,
            MessageType::User => "user"@,
            MessageType::Assistant => "assistant"@,
        }
    }

    /// The role name used in prompts.
    pub fn label(&self) -> (r: &'static str)
        ensures
            r@ == self.spec_label(),
    {
        match self {
            MessageType::System => "system",
            MessageType::User => "user",
            MessageType::Assistant => "assistant",
        }
    }
}

/// One session's messages, as the contracts speak of them.
pub open spec fn msgs_view(ms: Seq<(MessageType, String)>) -> Seq<(MessageType, Seq<char>)> {
    ms.map_values(|m: (MessageType, String)| (m.0, m.1@))
}

/// All sessions, keyed by session id, in insertion order.
pub open spec fn sessions_view(h: Seq<(String, Vec<(MessageType, String)>)>) -> Seq<
    (Seq<char>, Seq<(MessageType, Seq<char>)>),
> {
    h.map_values(|e: (String, Vec<(MessageType, String)>)| (e.0@, msgs_view(e.1@)))
}

/// The first session entry with this id, or `-1`.
pub open spec fn spec_session_index(
    h: Seq<(Seq<char>, Seq<(MessageType, Seq<char>)>)>,
    sid: Seq<char>,
) -> int
    decreases h.len(),
{
    if h.len() == 0 {
        -1
    } else if h.first().0 == sid {
        0
    } else {
        let r = spec_session_index(h.drop_first(), sid);
        if r == -1 {
            -1
        } else {
            r + 1
        }
    }
}

/// What `spec_session_index` returns: the first entry with the id, if any.
pub proof fn lemma_session_index(
    h: Seq<(Seq<char>, Seq<(MessageType, Seq<char>)>)>,
    sid: Seq<char>,
)
    ensures
        spec_session_index(h, sid) == -1 ==> forall|k: int|
            0 <= k < h.len() ==> (#[trigger] h[k]).0 != sid,
        spec_session_index(h, sid) != -1 ==> {
            let f = spec_session_index(h, sid);
            &&& 0 <= f < h.len()
            &&& h[f].0 == sid
            &&& forall|k: int| 0 <= k < f ==> (#[trigger] h[k]).0 != sid
        },
    decreases h.len(),
{
    if h.len() == 0 {
    } else if h.first().0 == sid {
    } else {
        lemma_session_index(h.drop_first(), sid);
        let d = h.drop_first();
        assert(forall|k: int| 0 <= k < d.len() ==> #[trigger] d[k] == h[k + 1]);
        if spec_session_index(d, sid) == -1 {
            assert forall|k: int| 0 <= k < h.len() implies (#[trigger] h[k]).0 != sid by {
                if k > 0 {
                    assert(d[k - 1] == h[k]);
                }
            }
        } else {
            let fd = spec_session_index(d, sid);
            assert(h[fd + 1] == d[fd]);
            assert forall|k: int| 0 <= k < fd + 1 implies (#[trigger] h[k]).0 != sid by {
                if k > 0 {
                    assert(d[k - 1] == h[k]);
                }
            }
        }
    }
}

/// The user-turn text handed to the model: the question and the retrieved
/// references, the latter rendered as a JSON array.
pub open spec fn spec_user_message(
    question: Seq<char>,
    references: Seq<EmbeddingVectorValue>,
) -> Seq<char> {
    "question: \""@ + question + "\"\nreferences: \""@ + spec_context_json(references) + "\"\n"@
}

/// Renders the user-turn text for a question and its references.
pub fn user_message_text(
    question: &str,
    references: &Vec<EmbeddingVectorValue>,
) -> (r: String)
    ensures
        r@ == spec_user_message(question@, references@),
{
    let ctx = crate::jsontext::context_json(references);
    let r = String::from_str("question: \"").concat(question).concat("\"\nreferences: \"")
        .concat(ctx.as_str()).concat("\"\n");
    r
}

/// The prompt text the local model receives: each message wrapped in its
/// role's delimiters.
pub open spec fn spec_render_local(msgs: Seq<(MessageType, Seq<char>)>) -> Seq<char>
    decreases msgs.len(),
{
    if msgs.len() == 0 {
        Seq::<char>::empty()
    } else {
        spec_render_local(msgs.drop_last()) + "<|im_start|>"@ + msgs.last().0.spec_label()
            + "\n"@ + msgs.last().1 + "<|im_end|>\n"@
    }
}

/// Per-session chat histories and the standing system message.
pub struct ModelQuery {
    system_message: String,
    chat_history: Vec<(String, Vec<(MessageType, String)>)>,
}

impl View for ModelQuery {
    type V = Seq<(Seq<char>, Seq<(MessageType, Seq<char>)>)>;

    closed spec fn view(&self) -> Seq<(Seq<char>, Seq<(MessageType, Seq<char>)>)> {
        sessions_view(self.chat_history@)
    }
}

impl ModelQuery {
    pub closed spec fn spec_system_message(&self) -> Seq<char> {
        self.system_message@
    }

    /// A fresh query state with no sessions.
    pub fn new() -> (r: Self)
        ensures
            r.spec_system_message()
                == "You're a friendly and helpful AI Assistant. Be Concise and don't repeat yourself"@,
            r@ == Seq::<(Seq<char>, Seq<(MessageType, Seq<char>)>)>::empty(),
    {
        let r = ModelQuery {
            system_message: String::from_str(
                "You're a friendly and helpful AI Assistant. Be Concise and don't repeat yourself",
            ),
            chat_history: Vec::new(),
        };
        proof {
            assert(r@ =~= Seq::<(Seq<char>, Seq<(MessageType, Seq<char>)>)>::empty());
        }
        r
    }

    /// The first entry with this session id, scanned in order.
    fn find_session(&self, session_id: &str) -> (r: Option<usize>)
        ensures
            match r {
                Some(k) => k == spec_session_index(self@, session_id@) && k < self@.len()
                    && self@[k as int].0 == session_id@,
                None => spec_session_index(self@, session_id@) == -1,
            },
    {
        let mut i: usize = 0;
        while i < self.chat_history.len()
            invariant
                0 <= i <= self@.len(),
                self@.len() == self.chat_history@.len(),
                forall|k: int| 0 <= k < i ==> (#[trigger] self@[k]).0 != session_id@,
            decreases self@.len() - i,
        {
            if str_eq(self.chat_history[i].0.as_str(), session_id) {
                proof {
                    lemma_session_index(self@, session_id@);
                    assert(self@[i as int].0 == session_id@);
                    let f = spec_session_index(self@, session_id@);
                    if f == -1 {
                        assert(self@[i as int].0 != session_id@);
                    }
                    assert(f <= i) by {
                        if f > i {
                            assert(self@[i as int].0 != session_id@);
                        }
                    }
                    assert(f >= i);
                }
                return Some(i);
            }
            i = i + 1;
        }
        proof {
            lemma_session_index(self@, session_id@);
            let f = spec_session_index(self@, session_id@);
            if f != -1 {
                assert(self@[f].0 != session_id@);
            }
        }
        None
    }

    /// Appends one message to a session's history, in place.
    fn push_message(&mut self, idx: usize, kind: MessageType, message: String)
        requires
            idx < old(self)@.len(),
        ensures
            final(self)@ == old(self)@.update(
                idx as int,
                (old(self)@[idx as int].0, old(self)@[idx as int].1.push(
                    (kind, message@),
                )),
            ),
            final(self).spec_system_message() == old(self).spec_system_message(),
    {
        let ghost before = self@;
        let mut entry = self.chat_history.remove(idx);
        entry.1.push((kind, message));
        proof {
            assert(msgs_view(entry.1@) =~= before[idx as int].1.push((kind, message@)));
        }
        self.chat_history.insert(idx, entry);
        proof {
            assert(self@ =~= before.update(
                idx as int,
                (before[idx as int].0, before[idx as int].1.push((kind, message@))),
            ));
        }
    }

    /// Adds the user's turn for this question and its references: appended
    /// to the session when it exists, else opening a new session that
    /// starts with the system message.
    pub fn add_user_message(
        &mut self,
        question: &str,
        session_id: &str,
        references: &Vec<EmbeddingVectorValue>,
    )
        ensures
            ({
                let msg = spec_user_message(question@, references@);
                let f = spec_session_index(old(self)@, session_id@);
                if f != -1 {
                    final(self)@ == old(self)@.update(
                        f,
                        (old(self)@[f].0, old(self)@[f].1.push((MessageType::User, msg))),
                    )
                } else {
                    final(self)@ == old(self)@.push(
                        (
                            session_id@,
                            seq![
                                (MessageType::System, old(self).spec_system_message()),
                                (MessageType::User, msg),
                            ],
                        ),
                    )
                }
            }),
            final(self).spec_system_message() == old(self).spec_system_message(),
    {
        let msg = user_message_text(question, references);
        match self.find_session(session_id) {
            Some(idx) => {
                self.push_message(idx, MessageType::User, msg);
            },
            None => {
                let ghost before = self@;
                let mut turns: Vec<(MessageType, String)> = Vec::new();
                turns.push((MessageType::System, self.system_message.clone()));
                turns.push((MessageType::User, msg));
                let ghost expected = seq![
                    (MessageType::System, self.spec_system_message()),
                    (MessageType::User, spec_user_message(question@, references@)),
                ];
                proof {
                    assert(msgs_view(turns@) =~= expected);
                }
                self.chat_history.push((String::from_str(session_id), turns));
                proof {
                    assert(self@ =~= before.push((session_id@, expected)));
                }
            },
        }
    }

    /// Adds the assistant's reply: appended to the session when it exists,
    /// else opening a new session holding only the reply.
    pub fn add_assistant_message(&mut self, session_id: &str, response: String)
        ensures
            ({
                let f = spec_session_index(old(self)@, session_id@);
                if f != -1 {
                    final(self)@ == old(self)@.update(
                        f,
                        (
                            old(self)@[f].0,
                            old(self)@[f].1.push((MessageType::Assistant, response@)),
                        ),
                    )
                } else {
                    final(self)@ == old(self)@.push(
                        (session_id@, seq![(MessageType::Assistant, response@)]),
                    )
                }
            }),
            final(self).spec_system_message() == old(self).spec_system_message(),
    {
        match self.find_session(session_id) {
            Some(idx) => {
                self.push_message(idx, MessageType::Assistant, response);
            },
            None => {
                let ghost before = self@;
                let ghost expected = seq![(MessageType::Assistant, response@)];
                let mut turns: Vec<(MessageType, String)> = Vec::new();
                turns.push((MessageType::Assistant, response));
                proof {
                    assert(msgs_view(turns@) =~= expected);
                }
                self.chat_history.push((String::from_str(session_id), turns));
                proof {
                    assert(self@ =~= before.push((session_id@, expected)));
                }
            },
        }
    }

    /// A session's messages in order, for a prompt builder that needs the
    /// raw turns; an unknown session has none.
    pub fn session_messages(&self, session_id: &str) -> (r: Vec<(MessageType, String)>)
        ensures
            ({
                let f = spec_session_index(self@, session_id@);
                if f != -1 {
                    msgs_view(r@) == self@[f].1
                } else {
                    msgs_view(r@) == Seq::<(MessageType, Seq<char>)>::empty()
                }
            }),
    {
        match self.find_session(session_id) {
            None => {
                let r: Vec<(MessageType, String)> = Vec::new();
                proof {
                    assert(msgs_view(r@) =~= Seq::<(MessageType, Seq<char>)>::empty());
                }
                r
            },
            Some(idx) => {
                let msgs = &self.chat_history[idx].1;
                let ghost mv = self@[idx as int].1;
                let mut out: Vec<(MessageType, String)> = Vec::new();
                let mut i: usize = 0;
                while i < msgs.len()
                    invariant
                        mv == msgs_view(msgs@),
                        mv.len() == msgs@.len(),
                        0 <= i <= msgs@.len(),
                        msgs_view(out@) == mv.take(i as int),
                    decreases msgs@.len() - i,
                {
                    let ghost before = out@;
                    let kind = msgs[i].0;
                    let text = msgs[i].1.clone();
                    out.push((kind, text));
                    proof {
                        assert(msgs_view(out@) =~= msgs_view(before).push(
                            (msgs@[i as int].0, msgs@[i as int].1@),
                        ));
                        assert(msgs_view(out@) =~= mv.take(i + 1));
                    }
                    i = i + 1;
                }
                proof {
                    assert(mv.take(mv.len() as int) =~= mv);
                }
                out
            },
        }
    }

    /// Renders a session's history as the local model's prompt; an unknown
    /// session renders as the empty prompt.
    pub fn build_local(&self, session_id: &str) -> (r: String)
        ensures
            ({
                let f = spec_session_index(self@, session_id@);
                if f != -1 {
                    r@ == spec_render_local(self@[f].1)
                } else {
                    r@ == Seq::<char>::empty()
                }
            }),
    {
        match self.find_session(session_id) {
            None => String::new(),
            Some(idx) => {
                let msgs = &self.chat_history[idx].1;
                let ghost mv = self@[idx as int].1;
                proof {
                    reveal_strlit("<|im_start|>");
                    reveal_strlit("\n");
                    reveal_strlit("<|im_end|>\n");
                }
                let mut out = String::new();
                let mut i: usize = 0;
                while i < msgs.len()
                    invariant
                        mv == msgs_view(msgs@),
                        mv.len() == msgs@.len(),
                        0 <= i <= msgs@.len(),
                        out@ == spec_render_local(mv.take(i as int)),
                    decreases msgs@.len() - i,
                {
                    let kind = msgs[i].0;
                    let text = msgs[i].1.as_str();
                    out = out.concat("<|im_start|>").concat(kind.label()).concat("\n").concat(
                        text,
                    ).concat("<|im_end|>\n");
                    proof {
                        assert(mv.take(i + 1).drop_last() =~= mv.take(i as int));
                        assert(mv.take(i + 1).last() == mv[i as int]);
                        assert(mv[i as int] == (msgs@[i as int].0, msgs@[i as int].1@));
                        assert(out@ =~= spec_render_local(mv.take(i + 1)));
                    }
                    i = i + 1;
                }
                proof {
                    assert(mv.take(mv.len() as int) =~= mv);
                }
                out
            },
        }
    }
}

} // verus!
