//! A managed instance as discovered from the engine, and the order listings
//! are presented in.
use crate::labels::{label_key_parameters, labels_view, lookup_label};
use crate::parameters::{decode_spec, Parameters, ParametersV};
use crate::text::{lemma_lex_le_refl, lemma_lex_le_total, lemma_lex_le_trans, lex_le, str_lex_le};
use vstd::multiset::Multiset;
use vstd::prelude::*;
use vstd::seq_lib::group_to_multiset_ensures;

verus! {

/// One managed instance: the engine-assigned id, the engine-reported state,
/// and the decoded parameters. Identity is the id; ordering is by name.
#[derive(Clone, Debug)]
pub struct Server {
    pub id: String,
    pub state: String,
    pub parameters: Parameters,
}

pub struct ServerV {
    pub id: Seq<char>,
    pub state: Seq<char>,
    pub parameters: ParametersV,
}

impl View for Server {
    type V = ServerV;

    open spec fn view(&self) -> ServerV {
        ServerV { id: self.id@, state: self.state@, parameters: self.parameters@ }
    }
}

/// What a resource listing entry must yield for the resource to count as a
/// managed instance: an id, a state, and a parameters label that decodes.
pub open spec fn server_of_summary(
    id: Option<Seq<char>>,
    state: Option<Seq<char>>,
    labels: Seq<(Seq<char>, Seq<char>)>,
) -> Option<ServerV> {
    match (id, state) {
        (Some(id), Some(state)) => match lookup_label(labels, "mayo-parameters"@) {
            Some(blob) => match decode_spec(blob) {
                Some(ps) => Some(ServerV { id, state, parameters: ps }),
                None => None,
            },
            None => None,
        },
        _ => None,
    }
}

pub open spec fn opt_string_view(s: Option<String>) -> Option<Seq<char>> {
    match s {
        Some(x) => Some(x@),
        None => None,
    }
}

impl Server {
    /// Build a `Server` from the plain fields of one listing entry; `None`
    /// when the id or state is missing, the parameters label is absent, or
    /// its blob does not decode — such a resource is foreign and is excluded.
    pub fn from_summary(
        id: Option<String>,
        state: Option<String>,
        labels: &Vec<(String, String)>,
    ) -> (r: Option<Server>)
        ensures
            match r {
                Some(server) => server_of_summary(
                    opt_string_view(id),
                    opt_string_view(state),
                    labels_view(labels@),
                ) == Some(server@),
                None => server_of_summary(
                    opt_string_view(id),
                    opt_string_view(state),
                    labels_view(labels@),
                ) is None,
            },
    {
        let id = match id {
            Some(x) => x,
            None => {
                return None;
            },
        };
        let state = match state {
            Some(x) => x,
            None => {
                return None;
            },
        };
        let key = label_key_parameters();
        let blob = match crate::labels::label_get(labels, key) {
            Some(v) => v,
            None => {
                return None;
            },
        };
        match Parameters::decode_from_label(blob.as_str()) {
            Some(parameters) => Some(Server { id, state, parameters }),
            None => None,
        }
    }

    /// The name this instance sorts by.
    pub open spec fn sort_key(self) -> Seq<char> {
        self.parameters.name@
    }
}

pub open spec fn servers_view(l: Seq<Server>) -> Seq<ServerV> {
    l.map_values(|x: Server| x@)
}

impl PartialEq for Server {
    /// Identity of an instance is its engine-assigned id.
    fn eq(&self, other: &Self) -> (r: bool) {
        self.id == other.id
    }
}

impl vstd::std_specs::cmp::PartialEqSpecImpl for Server {
    open spec fn obeys_eq_spec() -> bool {
        true
    }

    open spec fn eq_spec(&self, other: &Self) -> bool {
        self.id@ == other.id@
    }
}

/// Listing order: by instance name, lexicographically.
pub open spec fn sorted_by_name(s: Seq<Server>) -> bool {
    forall|i: int, j: int|
        0 <= i < j < s.len() ==> lex_le(#[trigger] s[i].sort_key(), #[trigger] s[j].sort_key())
}

/// Sort a listing by instance name. The result holds exactly the input
/// instances (as a multiset), in name order.
pub fn sort_servers(v: Vec<Server>) -> (r: Vec<Server>)
    ensures
        r@.to_multiset() == v@.to_multiset(),
        sorted_by_name(r@),
        r@.len() == v@.len(),
{
    broadcast use group_to_multiset_ensures;

    let mut src = v;
    let mut out: Vec<Server> = Vec::new();
    proof {
        assert(out@.to_multiset().add(src@.to_multiset()) =~= v@.to_multiset());
    }
    while src.len() > 0
        invariant
            out@.to_multiset().add(src@.to_multiset()) == v@.to_multiset(),
            out@.len() + src@.len() == v@.len(),
            sorted_by_name(out@),
            forall|i: int, j: int|
                0 <= i < out@.len() && 0 <= j < src@.len() ==> lex_le(
                    #[trigger] out@[i].sort_key(),
                    #[trigger] src@[j].sort_key(),
                ),
        decreases src.len(),
    {
        let mut m: usize = 0;
        let mut j: usize = 1;
        proof {
            lemma_lex_le_refl(src@[0].sort_key());
        }
        while j < src.len()
            invariant
                0 <= m < src@.len(),
                m < j <= src@.len(),
                forall|k: int| 0 <= k < j ==> lex_le(src@[m as int].sort_key(), #[trigger] src@[k].sort_key()),
            decreases src.len() - j,
        {
            if str_lex_le(src[j].parameters.name.as_str(), src[m].parameters.name.as_str()) {
                proof {
                    let old_m = m as int;
                    assert forall|k: int| 0 <= k < j + 1 implies lex_le(
                        src@[j as int].sort_key(),
                        #[trigger] src@[k].sort_key(),
                    ) by {
                        if k < j {
                            lemma_lex_le_trans(
                                src@[j as int].sort_key(),
                                src@[old_m].sort_key(),
                                src@[k].sort_key(),
                            );
                        } else {
                            lemma_lex_le_refl(src@[j as int].sort_key());
                        }
                    }
                }
                m = j;
            } else {
                proof {
                    lemma_lex_le_total(
                        src@[m as int].sort_key(),
                        src@[j as int].sort_key(),
                    );
                }
            }
            j = j + 1;
        }
        let ghost src_before = src@;
        let ghost out_before = out@;
        let x = src.remove(m);
        out.push(x);
        proof {
            out_before.to_multiset_ensures();
            src_before.to_multiset_ensures();
            assert(src@ == src_before.remove(m as int));
            assert(out@ == out_before.push(x));
            assert(src_before[m as int] == x);
            assert(src_before.contains(x));
            assert(src_before.to_multiset().count(x) > 0);
            assert(out_before.push(x).to_multiset() =~= out_before.to_multiset().insert(x));
            assert(src_before.remove(m as int).to_multiset() =~= src_before.to_multiset().remove(
                x,
            ));
            assert(out@.to_multiset().add(src@.to_multiset()) =~= out_before.to_multiset().add(
                src_before.to_multiset(),
            ));
            // the minimum is below every remaining element
            assert forall|i: int, q: int|
                0 <= i < out@.len() && 0 <= q < src@.len() implies lex_le(
                #[trigger] out@[i].sort_key(),
                #[trigger] src@[q].sort_key(),
            ) by {
                let orig_q = if q < m { q } else { q + 1 };
                assert(src@[q] == src_before[orig_q]);
                if i < out_before.len() {
                    assert(out@[i] == out_before[i]);
                } else {
                    assert(out@[i] == x);
                }
            }
            assert forall|i: int, q: int| 0 <= i < q < out@.len() implies lex_le(
                #[trigger] out@[i].sort_key(),
                #[trigger] out@[q].sort_key(),
            ) by {
                if q < out_before.len() {
                } else {
                    assert(out@[q] == x);
                    assert(src_before[m as int] == x);
                }
            }
        }
    }
    proof {
        assert(src@.to_multiset() =~= Multiset::<Server>::empty());
        assert(out@.to_multiset().add(Multiset::<Server>::empty()) =~= out@.to_multiset());
    }
    out
}

} // verus!
