//! The broadcast chat room and the prompt of the text-generation proxy.
use vstd::prelude::*;

use crate::registry::names;
use vstd::string::StringExecFns;

verus! {

/// A chat request: the user's message and an optional model name.
pub struct ChatRequest {
    pub message: String,
    pub model: Option<String>,
}

/// The reply to a chat request.
pub struct ChatResponse {
    pub response: String,
}

/// The connections of the broadcast chat, each once.
pub struct ChatManager {
    sessions: Vec<usize>,
}

impl ChatManager {
    /// The connections in the chat.
    pub closed spec fn ids(&self) -> Set<usize> {
        self.sessions@.to_set()
    }

    /// Each connection is listed once.
    pub closed spec fn wf(&self) -> bool {
        self.sessions@.no_duplicates()
    }

    /// An empty chat.
    pub fn new() -> (r: Self)
        ensures
            r.wf(),
            r.ids() == Set::<usize>::empty(),
    {
        let r = ChatManager { sessions: Vec::new() };
        assert(r.sessions@.to_set() =~= Set::<usize>::empty());
        r
    }

    fn position(&self, id: usize) -> (r: Option<usize>)
        ensures
            match r {
                Some(i) => i < self.sessions@.len() && self.sessions@[i as int] == id,
                None => !self.sessions@.contains(id),
            },
    {
        let mut i: usize = 0;
        while i < self.sessions.len()
            invariant
                i <= self.sessions@.len(),
                forall|j: int| 0 <= j < i ==> self.sessions@[j] != id,
            decreases self.sessions@.len() - i,
        {
            if self.sessions[i] == id {
                return Some(i);
            }
            i = i + 1;
        }
        None
    }

    /// Adds a connection to the chat.
    pub fn register(&mut self, id: usize)
        requires
            old(self).wf(),
        ensures
            final(self).wf(),
            final(self).ids() == old(self).ids().insert(id),
    {
        let ghost pre = self.sessions@;
        if self.position(id).is_none() {
            self.sessions.push(id);
            assert(self.sessions@.to_set() =~= pre.to_set().insert(id)) by {
                assert(self.sessions@ == pre.push(id));
                pre.lemma_push_to_set_commute(id);
            }
        } else {
            assert(pre.to_set().insert(id) =~= pre.to_set());
        }
    }

    /// Takes a connection out of the chat.
    pub fn unregister(&mut self, id: usize)
        requires
            old(self).wf(),
        ensures
            final(self).wf(),
            final(self).ids() == old(self).ids().remove(id),
    {
        let ghost pre = self.sessions@;
        match self.position(id) {
            Some(i) => {
                self.sessions.remove(i);
                let ghost post = self.sessions@;
                assert(post =~= pre.remove(i as int));
                assert forall|a: int| 0 <= a < post.len() implies
                    #[trigger] post[a] == pre[if a < i { a } else { a + 1 }] by {}
                assert forall|a: int, b: int| 0 <= a < post.len() && 0 <= b < post.len() && a != b
                    implies post[a] != post[b] by {
                    let a2 = if a < i { a } else { a + 1 };
                    let b2 = if b < i { b } else { b + 1 };
                    assert(pre[a2] != pre[b2]);
                }
                assert(post.to_set() =~= pre.to_set().remove(id)) by {
                    assert forall|q: usize| post.to_set().contains(q) implies pre.to_set().remove(id).contains(q) by {
                        let a = choose|a: int| 0 <= a < post.len() && post[a] == q;
                        let a2 = if a < i { a } else { a + 1 };
                        assert(pre[a2] == q);
                        assert(pre[a2] != pre[i as int]);
                    }
                    assert forall|q: usize| pre.to_set().remove(id).contains(q) implies post.to_set().contains(q) by {
                        let a2 = choose|a2: int| 0 <= a2 < pre.len() && pre[a2] == q;
                        let a = if a2 < i { a2 } else { a2 - 1 };
                        assert(post[a] == q);
                    }
                }
            },
            None => {
                assert(pre.to_set().remove(id) =~= pre.to_set());
            },
        }
    }

    /// The connections that a message sent to the chat goes to: all of them,
    /// the sender included, each once.
    pub fn recipients(&self) -> (r: Vec<usize>)
        requires
            self.wf(),
        ensures
            r@.no_duplicates(),
            r@.to_set() == self.ids(),
    {
        self.sessions.clone()
    }
}

/// The lines of a history, separated by newlines.
pub open spec fn joined_lines(h: Seq<Seq<char>>) -> Seq<char>
    decreases h.len(),
{
    if h.len() == 0 {
        Seq::empty()
    } else if h.len() == 1 {
        h[0]
    } else {
        joined_lines(h.drop_last()) + "\n"@ + h.last()
    }
}

/// The prompt for an input after a conversation history.
pub open spec fn prompt_text(input: Seq<char>, history: Seq<Seq<char>>) -> Seq<char> {
    "Conversation history:\n"@ + joined_lines(history) + "\nUser: "@ + input + "\nAI:"@
}

/// Writes the prompt that the text-generation service is asked to continue.
pub fn build_prompt(input: &str, history: &Vec<String>) -> (r: String)
    ensures
        r@ == prompt_text(input@, names(history@)),
{
    let mut lines = String::new();
    let mut i: usize = 0;
    while i < history.len()
        invariant
            i <= history@.len(),
            lines@ == joined_lines(names(history@).take(i as int)),
        decreases history@.len() - i,
    {
        if i > 0 {
            lines.append("\n");
        }
        lines.append(history[i].as_str());
        proof {
            let h = names(history@);
            assert(h.take(i + 1).drop_last() =~= h.take(i as int));
            if i == 0 {
                assert(h.take(1)[0] == h[0]);
            }
        }
        i = i + 1;
    }
    proof {
        assert(names(history@).take(i as int) =~= names(history@));
    }
    let mut out = String::from_str("Conversation history:\n");
    out.append(lines.as_str());
    out.append("\nUser: ");
    out.append(input);
    out.append("\nAI:");
    out
}

} // verus!
