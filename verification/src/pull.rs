//! Image pull: the per-layer progress bookkeeping over the engine's event
//! stream, and the decision step of the make-image-present loop.
//!
//! The caller (which owns the actual indicators and the network stream) feeds
//! each event in and applies the returned instruction; this module decides,
//! and guarantees that a layer's indicator is finalized exactly once.
use crate::text::str_eq;
use vstd::prelude::*;
use vstd::string::*;

verus! {

/// One event from the engine's pull stream, reduced to plain values.
pub struct PullEvent {
    pub id: Option<String>,
    pub status: Option<String>,
    pub current: Option<i64>,
    pub total: Option<i64>,
}

/// What the caller must do to its display for one event. Fields are
/// independent; `None` or `false` means "nothing of this kind". The byte
/// counts are already screened, so the caller applies them as they stand.
pub struct ProgressInstruction {
    /// Create a new indicator for this layer first.
    pub new_layer: bool,
    /// Finalize the layer's indicator with this message.
    pub finish_message: Option<String>,
    /// Update the layer's message.
    pub set_message: Option<String>,
    /// Set the layer's total byte count to this length.
    pub set_length: Option<u64>,
    /// Set the layer's transferred byte count to this position.
    pub set_position: Option<u64>,
}

/// The length update an event justifies: only a positive total may set an
/// indicator's length; zero or negative totals are meaningless and dropped.
pub open spec fn length_update(total: Option<i64>) -> Option<u64> {
    match total {
        Some(t) => if t > 0 {
            Some(t as u64)
        } else {
            None
        },
        None => None,
    }
}

/// The position update an event justifies: only a non-negative current may
/// set an indicator's position; negative counts are dropped.
pub open spec fn position_update(current: Option<i64>) -> Option<u64> {
    match current {
        Some(c) => if c >= 0 {
            Some(c as u64)
        } else {
            None
        },
        None => None,
    }
}

/// A per-layer terminal status: after one of these the layer is done.
pub open spec fn is_terminal_spec(s: Seq<char>) -> bool {
    s == "Download complete"@ || s == "Pull complete"@ || s == "Already exists"@
}

pub fn is_terminal_status(s: &str) -> (r: bool)
    ensures
        r == is_terminal_spec(s@),
{
    str_eq(s, "Download complete") || str_eq(s, "Pull complete") || str_eq(s, "Already exists")
}

/// `<layer>: <status>`, the text shown beside a layer.
pub open spec fn layer_message_spec(id: Seq<char>, status: Seq<char>) -> Seq<char> {
    id + ": "@ + status
}

fn layer_message(id: &str, status: &str) -> (r: String)
    ensures
        r@ == layer_message_spec(id@, status@),
{
    let mut out = String::from_str(id);
    out.append(": ");
    out.append(status);
    proof {
        assert(out@ =~= layer_message_spec(id@, status@));
    }
    out
}

/// Whether the layer with this id has been finalized; first match decides.
pub open spec fn find_layer(ls: Seq<(Seq<char>, bool)>, id: Seq<char>) -> Option<bool>
    decreases ls.len(),
{
    if ls.len() == 0 {
        None
    } else if ls[0].0 == id {
        Some(ls[0].1)
    } else {
        find_layer(ls.drop_first(), id)
    }
}

proof fn lemma_find_layer_index(ls: Seq<(Seq<char>, bool)>, id: Seq<char>, k: int)
    requires
        0 <= k <= ls.len(),
        forall|j: int| 0 <= j < k ==> (#[trigger] ls[j]).0 != id,
        k < ls.len() ==> ls[k].0 == id,
    ensures
        k < ls.len() ==> find_layer(ls, id) == Some(ls[k].1),
        k == ls.len() ==> find_layer(ls, id) is None,
    decreases ls.len(),
{
    if ls.len() > 0 {
        if ls[0].0 == id {
            assert(k == 0);
        } else {
            assert(ls.drop_first() =~= ls.skip(1));
            lemma_find_layer_index(ls.drop_first(), id, k - 1);
        }
    }
}

proof fn lemma_find_layer_push(ls: Seq<(Seq<char>, bool)>, e: (Seq<char>, bool), id: Seq<char>)
    ensures
        find_layer(ls.push(e), id) == match find_layer(ls, id) {
            Some(b) => Some(b),
            None => if e.0 == id {
                Some(e.1)
            } else {
                None
            },
        },
    decreases ls.len(),
{
    let p = ls.push(e);
    if ls.len() == 0 {
        assert(p.len() == 1);
        assert(p[0] == e);
        assert(p.drop_first() =~= Seq::<(Seq<char>, bool)>::empty());
        assert(find_layer(p.drop_first(), id) is None);
        assert(find_layer(ls, id) is None);
        if e.0 == id {
            assert(find_layer(p, id) == Some(e.1));
        } else {
            assert(find_layer(p, id) is None);
        }
    } else {
        assert(p[0] == ls[0]);
        assert(p.drop_first() =~= ls.drop_first().push(e));
        lemma_find_layer_push(ls.drop_first(), e, id);
        if ls[0].0 == id {
            assert(find_layer(p, id) == Some(ls[0].1));
            assert(find_layer(ls, id) == Some(ls[0].1));
        } else {
            assert(find_layer(p, id) == find_layer(p.drop_first(), id));
            assert(find_layer(ls, id) == find_layer(ls.drop_first(), id));
        }
    }
}

proof fn lemma_find_layer_update(
    ls: Seq<(Seq<char>, bool)>,
    k: int,
    e: (Seq<char>, bool),
    id: Seq<char>,
)
    requires
        0 <= k < ls.len(),
        forall|j: int| 0 <= j < k ==> (#[trigger] ls[j]).0 != e.0,
        ls[k].0 == e.0,
    ensures
        find_layer(ls.update(k, e), id) == if id == e.0 {
            Some(e.1)
        } else {
            find_layer(ls, id)
        },
    decreases ls.len(),
{
    let u = ls.update(k, e);
    if k == 0 {
        assert(u[0] == e);
        assert(u.drop_first() =~= ls.drop_first());
    } else {
        assert(u[0] == ls[0]);
        assert(u.drop_first() =~= ls.drop_first().update(k - 1, e));
        lemma_find_layer_update(ls.drop_first(), k - 1, e, id);
    }
}

/// The layer table of an in-progress pull: one entry per layer id seen so
/// far, with whether that layer's indicator has been finalized.
pub struct PullProgress {
    pub layers: Vec<(String, bool)>,
}

pub open spec fn layers_seq(ls: Seq<(String, bool)>) -> Seq<(Seq<char>, bool)> {
    ls.map_values(|l: (String, bool)| (l.0@, l.1))
}

impl View for PullProgress {
    type V = Seq<(Seq<char>, bool)>;

    open spec fn view(&self) -> Seq<(Seq<char>, bool)> {
        layers_seq(self.layers@)
    }
}

/// Whether the event carries a terminal status.
pub open spec fn event_terminal(status: Option<String>) -> bool {
    match status {
        Some(s) => is_terminal_spec(s@),
        None => false,
    }
}

fn find_layer_index(layers: &Vec<(String, bool)>, id: &str) -> (k: usize)
    ensures
        k <= layers@.len(),
        forall|j: int| 0 <= j < k ==> (#[trigger] layers_seq(layers@)[j]).0 != id@,
        k < layers@.len() ==> layers_seq(layers@)[k as int].0 == id@,
{
    let n = layers.len();
    let mut k: usize = 0;
    while k < n
        invariant
            0 <= k <= n,
            n == layers@.len(),
            forall|j: int| 0 <= j < k ==> (#[trigger] layers_seq(layers@)[j]).0 != id@,
        decreases n - k,
    {
        proof {
            assert(layers_seq(layers@)[k as int] == (layers@[k as int].0@, layers@[k as int].1));
        }
        if str_eq(layers[k].0.as_str(), id) {
            return k;
        }
        k = k + 1;
    }
    k
}

impl PullProgress {
    /// Layer ids are pairwise distinct.
    pub open spec fn wf(&self) -> bool {
        forall|i: int, j: int|
            0 <= i < j < self@.len() ==> (#[trigger] self@[i]).0 != (#[trigger] self@[j]).0
    }

    pub fn new() -> (r: PullProgress)
        ensures
            r@ == Seq::<(Seq<char>, bool)>::empty(),
            r.wf(),
    {
        let r = PullProgress { layers: Vec::new() };
        proof {
            assert(r@ =~= Seq::<(Seq<char>, bool)>::empty());
        }
        r
    }

    /// Digest one stream event. Events without a layer id change nothing.
    /// For a layer event: a first sighting asks for a new indicator; a
    /// positive total sets the length and a non-negative current sets the
    /// position, while other counts are dropped; a non-terminal status
    /// updates the message; a terminal status finalizes the layer — but only
    /// the first time, so an indicator is never finalized twice.
    pub fn on_event(&mut self, ev: &PullEvent) -> (instr: ProgressInstruction)
        requires
            old(self).wf(),
        ensures
            final(self).wf(),
            match ev.id {
                None => final(self)@ == old(self)@ && !instr.new_layer && instr.finish_message
                    is None && instr.set_message is None && instr.set_length is None
                    && instr.set_position is None,
                Some(id) => {
                    let known = find_layer(old(self)@, id@);
                    let was_done = known == Some(true);
                    let term = event_terminal(ev.status);
                    &&& instr.new_layer == (known is None)
                    &&& instr.set_length == length_update(ev.total)
                    &&& instr.set_position == position_update(ev.current)
                    &&& match ev.status {
                        None => instr.finish_message is None && instr.set_message is None,
                        Some(st) => if term && !was_done {
                            (instr.finish_message matches Some(m) && m@ == layer_message_spec(
                                id@,
                                st@,
                            )) && instr.set_message is None
                        } else if term {
                            instr.finish_message is None && instr.set_message is None
                        } else {
                            instr.finish_message is None && (instr.set_message matches Some(m)
                                && m@ == layer_message_spec(id@, st@))
                        },
                    }
                    &&& find_layer(final(self)@, id@) == Some(was_done || term)
                    &&& forall|other: Seq<char>|
                        other != id@ ==> find_layer(final(self)@, other) == find_layer(
                            old(self)@,
                            other,
                        )
                },
            },
    {
        let id = match &ev.id {
            Some(id) => id,
            None => {
                return ProgressInstruction {
                    new_layer: false,
                    finish_message: None,
                    set_message: None,
                    set_length: None,
                    set_position: None,
                };
            },
        };
        let ghost idv = id@;
        let ghost ls0 = self@;
        let n = self.layers.len();
        let k = find_layer_index(&self.layers, id.as_str());
        proof {
            lemma_find_layer_index(ls0, idv, k as int);
        }
        let known_none = k == n;
        let was_done = if k < n {
            proof {
                assert(ls0[k as int] == (self.layers@[k as int].0@, self.layers@[k as int].1));
            }
            self.layers[k].1
        } else {
            false
        };
        let term = match &ev.status {
            Some(st) => is_terminal_status(st.as_str()),
            None => false,
        };
        let finish_now = term && !was_done;
        let new_done = was_done || term;
        if known_none {
            let entry = (id.clone(), new_done);
            self.layers.push(entry);
            proof {
                assert(self@ =~= ls0.push((idv, new_done)));
                lemma_find_layer_push(ls0, (idv, new_done), idv);
                assert forall|other: Seq<char>| other != idv implies find_layer(self@, other)
                    == find_layer(ls0, other) by {
                    lemma_find_layer_push(ls0, (idv, new_done), other);
                }
            }
        } else if finish_now {
            let entry = (id.clone(), true);
            let _ = self.layers.remove(k);
            self.layers.insert(k, entry);
            proof {
                assert(self@ =~= ls0.update(k as int, (idv, true)));
                lemma_find_layer_update(ls0, k as int, (idv, true), idv);
                assert forall|other: Seq<char>| other != idv implies find_layer(self@, other)
                    == find_layer(ls0, other) by {
                    lemma_find_layer_update(ls0, k as int, (idv, true), other);
                }
            }
        } else {
            proof {
                assert(self@ == ls0);
            }
        }
        let (finish_message, set_message) = match &ev.status {
            Some(st) => {
                if finish_now {
                    (Some(layer_message(id.as_str(), st.as_str())), None)
                } else if term {
                    (None, None)
                } else {
                    (None, Some(layer_message(id.as_str(), st.as_str())))
                }
            },
            None => (None, None),
        };
        let set_length = match ev.total {
            Some(t) => if t > 0 {
                Some(t as u64)
            } else {
                None
            },
            None => None,
        };
        let set_position = match ev.current {
            Some(c) => if c >= 0 {
                Some(c as u64)
            } else {
                None
            },
            None => None,
        };
        ProgressInstruction {
            new_layer: known_none,
            finish_message,
            set_message,
            set_length,
            set_position,
        }
    }
}

/// One round of the make-image-present loop, deciding from what the local
/// cache lookup returned: a hit ends the loop with that image id; a miss
/// asks the caller to pull and then look again. The loop is unbounded by
/// design — a pull that completes without making the image visible is simply
/// not done yet.
pub enum EnsureImageStep {
    Done(String),
    PullAndRecheck,
}

pub fn ensure_image_step(lookup: Option<String>) -> (r: EnsureImageStep)
    ensures
        match lookup {
            Some(image_id) => r == EnsureImageStep::Done(image_id),
            None => r == EnsureImageStep::PullAndRecheck,
        },
{
    match lookup {
        Some(image_id) => EnsureImageStep::Done(image_id),
        None => EnsureImageStep::PullAndRecheck,
    }
}

} // verus!
