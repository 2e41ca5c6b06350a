//! The metadata label schema this tool writes on every resource it creates,
//! and a verified lookup over a label list.
use crate::text::str_eq;
use vstd::prelude::*;

verus! {

/// Key of the label that holds this tool's version; its presence also marks a
/// resource as managed by this tool.
pub fn label_key_cli_version() -> (r: &'static str)
    ensures
        r@ == "mayo-cli-version"@,
{
    "mayo-cli-version"
}

/// Key of the label that holds the encoded instance parameters.
pub fn label_key_parameters() -> (r: &'static str)
    ensures
        r@ == "mayo-parameters"@,
{
    "mayo-parameters"
}

/// The value of the first pair whose key is `key`.
pub open spec fn lookup_label(labels: Seq<(Seq<char>, Seq<char>)>, key: Seq<char>) -> Option<
    Seq<char>,
>
    decreases labels.len(),
{
    if labels.len() == 0 {
        None
    } else if labels[0].0 == key {
        Some(labels[0].1)
    } else {
        lookup_label(labels.drop_first(), key)
    }
}

pub open spec fn labels_view(labels: Seq<(String, String)>) -> Seq<(Seq<char>, Seq<char>)> {
    labels.map_values(|l: (String, String)| (l.0@, l.1@))
}

/// Find the first label with the given key.
pub fn label_get<'a>(labels: &'a Vec<(String, String)>, key: &str) -> (r: Option<&'a String>)
    ensures
        match r {
            Some(v) => lookup_label(labels_view(labels@), key@) == Some(v@),
            None => lookup_label(labels_view(labels@), key@) is None,
        },
{
    let ghost full = labels_view(labels@);
    let mut i: usize = 0;
    proof {
        assert(full.skip(0) =~= full);
    }
    while i < labels.len()
        invariant
            0 <= i <= labels.len(),
            full == labels_view(labels@),
            full.len() == labels@.len(),
            lookup_label(full, key@) == lookup_label(full.skip(i as int), key@),
        decreases labels.len() - i,
    {
        proof {
            assert(full.skip(i as int)[0] == full[i as int]);
            assert(full.skip(i as int).drop_first() =~= full.skip(i as int + 1));
        }
        if str_eq(labels[i].0.as_str(), key) {
            return Some(&labels[i].1);
        }
        i = i + 1;
    }
    proof {
        assert(full.skip(labels@.len() as int) =~= Seq::<(Seq<char>, Seq<char>)>::empty());
    }
    None
}

} // verus!
