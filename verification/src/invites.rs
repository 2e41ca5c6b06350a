//! The remote command bridge for the per-instance invite store.
//!
//! Three fixed scripts run inside a running instance; the caller registers
//! the command with the instance's execution context, streams the combined
//! output into one buffer, and hands the outcome back here. This module
//! renders the scripts and parses the outcomes; it never opens the store.
use crate::error::Error;
use crate::text::{
    is_digit, parse_u64_at, parse_u64_from, push_u64, trim_ascii, trim_bytes, utf8_lossy,
    utf8_lossy_of,
};
use vstd::prelude::*;
use vstd::string::*;

verus! {

/// What an operator asks for when creating an invite.
#[derive(Clone, Copy, PartialEq, Eq, Structural, Debug)]
pub struct InviteParameters {
    pub uses: Option<u32>,
    pub perms: u32,
}

/// One row of an instance's invite store, as read back over the bridge.
#[derive(Clone, Debug, PartialEq, Eq)]
pub struct Invite {
    pub id: String,
    pub uses: Option<u32>,
    pub perms: u32,
}

pub struct InviteV {
    pub id: Seq<char>,
    pub uses: Option<u32>,
    pub perms: u32,
}

impl View for Invite {
    type V = InviteV;

    open spec fn view(&self) -> InviteV {
        InviteV { id: self.id@, uses: self.uses, perms: self.perms }
    }
}

/// How an exec finished: with its combined output stream fully drained, or
/// detached — in which case no output was readable.
pub enum ExecOutcome {
    Attached { output: Vec<u8> },
    Detached,
}

pub enum ExecOutcomeV {
    Attached(Seq<u8>),
    Detached,
}

impl View for ExecOutcome {
    type V = ExecOutcomeV;

    open spec fn view(&self) -> ExecOutcomeV {
        match self {
            ExecOutcome::Attached { output } => ExecOutcomeV::Attached(output@),
            ExecOutcome::Detached => ExecOutcomeV::Detached,
        }
    }
}

/// `null` for an unlimited invite, else the decimal count.
pub open spec fn uses_text(uses: Option<u32>) -> Seq<char> {
    match uses {
        Some(u) => crate::text::dec_str(u as nat),
        None => "null"@,
    }
}

/// The insert script: creates one row with a fresh identifier and writes the
/// identifier to standard output.
pub open spec fn create_script_spec(uses: Option<u32>, perms: u32) -> Seq<char> {
    "import { Database } from \"bun:sqlite\";\nconst database = new Database(\"/mayo/.data/db.sqlite\");\nconst id = Bun.randomUUIDv7();\ndatabase.query(`insert into invites ('id', 'uses', 'perms') values (?1, ?2, ?3);`).run(id, "@
        + uses_text(uses) + ", "@ + crate::text::dec_str(perms as nat)
        + ");\nconsole.write(id);\n"@
}

pub fn invite_create_script(uses: Option<u32>, perms: u32) -> (r: String)
    ensures
        r@ == create_script_spec(uses, perms),
{
    proof {
        reveal_strlit("null");
        reveal_strlit(", ");
    }
    let mut out = String::from_str(
        "import { Database } from \"bun:sqlite\";\nconst database = new Database(\"/mayo/.data/db.sqlite\");\nconst id = Bun.randomUUIDv7();\ndatabase.query(`insert into invites ('id', 'uses', 'perms') values (?1, ?2, ?3);`).run(id, ",
    );
    match uses {
        Some(u) => {
            push_u64(&mut out, u as u64);
        },
        None => {
            out.append("null");
        },
    }
    out.append(", ");
    push_u64(&mut out, perms as u64);
    out.append(");\nconsole.write(id);\n");
    proof {
        assert(out@ =~= create_script_spec(uses, perms));
    }
    out
}

/// The read script: writes all rows as a JSON array to standard output.
pub fn invite_list_script() -> (r: String)
    ensures
        r@
            == "import { Database } from \"bun:sqlite\";\nconst database = new Database(\"/mayo/.data/db.sqlite\");\nconst invites = database.query(`select id, uses, perms from invites;`).all();\nconsole.write(JSON.stringify(invites));\n"@,
{
    String::from_str(
        "import { Database } from \"bun:sqlite\";\nconst database = new Database(\"/mayo/.data/db.sqlite\");\nconst invites = database.query(`select id, uses, perms from invites;`).all();\nconsole.write(JSON.stringify(invites));\n",
    )
}

/// Identifier characters this tool will splice into a delete script: the
/// alphabet of the UUIDs the create script mints. Anything else is refused,
/// so no caller-controlled text can break out of the string literal.
pub open spec fn safe_id_char(c: char) -> bool {
    is_digit(c) || ('a' <= c && c <= 'z') || ('A' <= c && c <= 'Z') || c == '-'
}

pub open spec fn safe_id(s: Seq<char>) -> bool {
    s.len() > 0 && forall|i: int| 0 <= i < s.len() ==> safe_id_char(#[trigger] s[i])
}

pub open spec fn delete_script_spec(id: Seq<char>) -> Seq<char> {
    "import { Database } from \"bun:sqlite\";\nconst database = new Database(\"/mayo/.data/db.sqlite\");\ndatabase.query(`delete from invites where id = ?1;`).run(\""@
        + id + "\");\n"@
}

/// The delete script for one invite id; `None` when the id holds a character
/// outside the invite-id alphabet.
pub fn invite_delete_script(invite_id: &str) -> (r: Option<String>)
    ensures
        match r {
            Some(script) => safe_id(invite_id@) && script@ == delete_script_spec(invite_id@),
            None => !safe_id(invite_id@),
        },
{
    let n = invite_id.unicode_len();
    if n == 0 {
        return None;
    }
    let mut i: usize = 0;
    while i < n
        invariant
            0 <= i <= n,
            n == invite_id@.len(),
            forall|j: int| 0 <= j < i ==> safe_id_char(#[trigger] invite_id@[j]),
        decreases n - i,
    {
        let c = invite_id.get_char(i);
        let ok = ('0' <= c && c <= '9') || ('a' <= c && c <= 'z') || ('A' <= c && c <= 'Z') || c
            == '-';
        if !ok {
            return None;
        }
        i = i + 1;
    }
    let mut out = String::from_str(
        "import { Database } from \"bun:sqlite\";\nconst database = new Database(\"/mayo/.data/db.sqlite\");\ndatabase.query(`delete from invites where id = ?1;`).run(\"",
    );
    out.append(invite_id);
    out.append("\");\n");
    proof {
        assert(out@ =~= delete_script_spec(invite_id@));
    }
    Some(out)
}

/// What creating an invite yields from an exec outcome: detached fails, and
/// attached output, trimmed of ASCII whitespace, is the new invite id.
pub open spec fn create_outcome_spec(o: ExecOutcomeV) -> Result<Seq<char>, Error> {
    match o {
        ExecOutcomeV::Detached => Err(Error::RemoteExecutionDetached),
        ExecOutcomeV::Attached(output) => Ok(utf8_lossy_of(trim_bytes(output))),
    }
}

/// Read the new invite id back from the create exec.
pub fn invite_create_result(outcome: &ExecOutcome) -> (r: Result<String, Error>)
    ensures
        match r {
            Ok(id) => create_outcome_spec(outcome@) == Ok::<Seq<char>, Error>(id@),
            Err(e) => create_outcome_spec(outcome@) == Err::<Seq<char>, Error>(e),
        },
{
    match outcome {
        ExecOutcome::Detached => Err(Error::RemoteExecutionDetached),
        ExecOutcome::Attached { output } => {
            let trimmed = trim_ascii(output);
            Ok(utf8_lossy(&trimmed))
        },
    }
}

/// `lit` appears in `s` at position `i`.
pub open spec fn expect_at(s: Seq<char>, i: nat, lit: Seq<char>) -> bool {
    i + lit.len() <= s.len() && s.subrange(i as int, (i + lit.len()) as int) == lit
}

fn expect_lit(s: &str, slen: usize, i: usize, lit: &str) -> (r: bool)
    requires
        slen == s@.len(),
    ensures
        r == expect_at(s@, i as nat, lit@),
{
    let m = lit.unicode_len();
    if m > slen || i > slen - m {
        return false;
    }
    let mut t: usize = 0;
    while t < m
        invariant
            0 <= t <= m,
            m == lit@.len(),
            slen == s@.len(),
            i + m <= slen,
            forall|j: int| 0 <= j < t ==> s@[i + j] == lit@[j],
        decreases m - t,
    {
        if s.get_char(i + t) != lit.get_char(t) {
            proof {
                assert(s@.subrange(i as int, i + m) != lit@) by {
                    assert(s@.subrange(i as int, i + m)[t as int] == s@[i + t]);
                }
            }
            return false;
        }
        t = t + 1;
    }
    proof {
        assert(s@.subrange(i as int, i + m) =~= lit@);
    }
    true
}

/// A character the parser accepts inside an id string: printable ASCII, no
/// quote, no backslash — so no escape handling is ever needed.
pub open spec fn id_char_ok(c: char) -> bool {
    ' ' <= c && c <= '~' && c != '"' && c != '\\'
}

/// The position of the closing quote of an id string starting at `i`.
pub open spec fn scan_id_end(s: Seq<char>, i: nat) -> Option<nat>
    decreases s.len() - i,
{
    if i >= s.len() {
        None
    } else if s[i as int] == '"' {
        Some(i)
    } else if id_char_ok(s[i as int]) {
        scan_id_end(s, (i + 1) as nat)
    } else {
        None
    }
}

fn find_id_end(s: &str, slen: usize, i: usize) -> (r: Option<usize>)
    requires
        slen == s@.len(),
    ensures
        match r {
            Some(e) => scan_id_end(s@, i as nat) == Some(e as nat) && i <= e && e < slen,
            None => scan_id_end(s@, i as nat) is None,
        },
{
    let mut j = i;
    loop
        invariant
            i <= j,
            slen == s@.len(),
            scan_id_end(s@, i as nat) == scan_id_end(s@, j as nat),
        decreases slen - j,
    {
        if j >= slen {
            return None;
        }
        let c = s.get_char(j);
        if c == '"' {
            return Some(j);
        }
        if !(' ' <= c && c <= '~' && c != '"' && c != '\\') {
            return None;
        }
        j = j + 1;
    }
}

/// One `{"id":"…","uses":…,"perms":…}` object at position `i`, exactly as the
/// in-container runtime serializes a row.
pub open spec fn parse_object_at(s: Seq<char>, i: nat) -> Option<(InviteV, nat)> {
    let l1 = "{\"id\":\""@;
    let l2 = "\",\"uses\":"@;
    let l3 = ",\"perms\":"@;
    if expect_at(s, i, l1) {
        match scan_id_end(s, (i + l1.len()) as nat) {
            Some(e) => {
                let id = s.subrange((i + l1.len()) as int, e as int);
                if expect_at(s, e, l2) {
                    let j2 = (e + l2.len()) as nat;
                    let after_uses: Option<(Option<u32>, nat)> = if expect_at(s, j2, "null"@) {
                        Some((None, (j2 + "null"@.len()) as nat))
                    } else {
                        match parse_u64_at(s, j2) {
                            Some((v, j3)) => if v <= u32::MAX {
                                Some((Some(v as u32), j3))
                            } else {
                                None
                            },
                            None => None,
                        }
                    };
                    match after_uses {
                        Some((uses, j3)) => if expect_at(s, j3, l3) {
                            let j4 = (j3 + l3.len()) as nat;
                            match parse_u64_at(s, j4) {
                                Some((pv, j5)) => if pv <= u32::MAX && expect_at(s, j5, "}"@) {
                                    Some(
                                        (
                                            InviteV { id, uses, perms: pv as u32 },
                                            (j5 + "}"@.len()) as nat,
                                        ),
                                    )
                                } else {
                                    None
                                },
                                None => None,
                            }
                        } else {
                            None
                        },
                        None => None,
                    }
                } else {
                    None
                }
            },
            None => None,
        }
    } else {
        None
    }
}

fn parse_object(s: &str, slen: usize, i: usize) -> (r: Option<(Invite, usize)>)
    requires
        slen == s@.len(),
    ensures
        match r {
            Some((inv, j)) => parse_object_at(s@, i as nat) == Some((inv@, j as nat)) && i < j
                && j <= slen,
            None => parse_object_at(s@, i as nat) is None,
        },
{
    let l1 = "{\"id\":\"";
    let l2 = "\",\"uses\":";
    let l3 = ",\"perms\":";
    if !expect_lit(s, slen, i, l1) {
        return None;
    }
    let id_start = i + l1.unicode_len();
    let e = match find_id_end(s, slen, id_start) {
        Some(e) => e,
        None => {
            return None;
        },
    };
    let id = s.substring_char(id_start, e).to_owned();
    if !expect_lit(s, slen, e, l2) {
        return None;
    }
    let j2 = e + l2.unicode_len();
    let (uses, j3) = if expect_lit(s, slen, j2, "null") {
        (None, j2 + "null".unicode_len())
    } else {
        match parse_u64_from(s, j2) {
            Some((v, j3)) => {
                if v <= 0xFFFF_FFFF {
                    proof {
                        crate::text::lemma_parse_u64_range(s@, j2 as nat);
                    }
                    (Some(v as u32), j3)
                } else {
                    return None;
                }
            },
            None => {
                return None;
            },
        }
    };
    if !expect_lit(s, slen, j3, l3) {
        return None;
    }
    let j4 = j3 + l3.unicode_len();
    let (pv, j5) = match parse_u64_from(s, j4) {
        Some(x) => x,
        None => {
            return None;
        },
    };
    proof {
        crate::text::lemma_parse_u64_range(s@, j4 as nat);
    }
    if !(pv <= 0xFFFF_FFFF && expect_lit(s, slen, j5, "}")) {
        return None;
    }
    let j6 = j5 + "}".unicode_len();
    Some((Invite { id, uses, perms: pv as u32 }, j6))
}

pub open spec fn invites_view(l: Seq<Invite>) -> Seq<InviteV> {
    l.map_values(|x: Invite| x@)
}

/// The objects of a non-empty array from position `i` up to and including the
/// closing bracket. The fuel only bounds recursion; each object consumes at
/// least one character, so input length is always enough.
pub open spec fn parse_objects_at(s: Seq<char>, i: nat, fuel: nat) -> Option<(Seq<InviteV>, nat)>
    decreases fuel,
{
    if fuel == 0 {
        None
    } else {
        match parse_object_at(s, i) {
            Some((inv, j)) => if expect_at(s, j, ","@) {
                match parse_objects_at(s, (j + ","@.len()) as nat, (fuel - 1) as nat) {
                    Some((rest, k)) => Some((seq![inv] + rest, k)),
                    None => None,
                }
            } else if expect_at(s, j, "]"@) {
                Some((seq![inv], (j + "]"@.len()) as nat))
            } else {
                None
            },
            None => None,
        }
    }
}

fn parse_objects(s: &str, slen: usize, i: usize, fuel: usize) -> (r: Option<(Vec<Invite>, usize)>)
    requires
        slen == s@.len(),
    ensures
        match r {
            Some((list, k)) => parse_objects_at(s@, i as nat, fuel as nat) == Some(
                (invites_view(list@), k as nat),
            ),
            None => parse_objects_at(s@, i as nat, fuel as nat) is None,
        },
    decreases fuel,
{
    if fuel == 0 {
        return None;
    }
    let (inv, j) = match parse_object(s, slen, i) {
        Some(x) => x,
        None => {
            return None;
        },
    };
    if expect_lit(s, slen, j, ",") {
        let next = j + ",".unicode_len();
        match parse_objects(s, slen, next, fuel - 1) {
            Some((mut list, k)) => {
                let ghost tailv = list@;
                list.insert(0, inv);
                proof {
                    assert(list@ == tailv.insert(0, inv));
                    assert(invites_view(list@) =~= seq![inv@] + invites_view(tailv));
                }
                Some((list, k))
            },
            None => None,
        }
    } else if expect_lit(s, slen, j, "]") {
        let mut list: Vec<Invite> = Vec::new();
        let ghost emptyv = list@;
        list.push(inv);
        proof {
            assert(invites_view(list@) =~= seq![inv@]);
        }
        Some((list, j + "]".unicode_len()))
    } else {
        None
    }
}

/// The whole invite listing: `[]`, or `[` objects `]`, with nothing after.
pub open spec fn parse_invites_spec(s: Seq<char>) -> Option<Seq<InviteV>> {
    if expect_at(s, 0, "[]"@) && s.len() == "[]"@.len() {
        Some(Seq::empty())
    } else if expect_at(s, 0, "["@) {
        match parse_objects_at(s, "["@.len() as nat, s.len()) {
            Some((list, k)) => if k == s.len() {
                Some(list)
            } else {
                None
            },
            None => None,
        }
    } else {
        None
    }
}

/// Parse the read script's output into invite records.
pub fn parse_invites(s: &str) -> (r: Option<Vec<Invite>>)
    ensures
        match r {
            Some(list) => parse_invites_spec(s@) == Some(invites_view(list@)),
            None => parse_invites_spec(s@) is None,
        },
{
    let slen = s.unicode_len();
    if expect_lit(s, slen, 0, "[]") && slen == "[]".unicode_len() {
        let list: Vec<Invite> = Vec::new();
        proof {
            assert(invites_view(list@) =~= Seq::<InviteV>::empty());
        }
        return Some(list);
    }
    if expect_lit(s, slen, 0, "[") {
        match parse_objects(s, slen, "[".unicode_len(), slen) {
            Some((list, k)) => {
                if k == slen {
                    Some(list)
                } else {
                    None
                }
            },
            None => None,
        }
    } else {
        None
    }
}

/// What listing invites yields from an exec outcome: detached fails; attached
/// output must parse as the invite array, else the output is malformed.
pub open spec fn list_outcome_spec(o: ExecOutcomeV) -> Result<Seq<InviteV>, Error> {
    match o {
        ExecOutcomeV::Detached => Err(Error::RemoteExecutionDetached),
        ExecOutcomeV::Attached(output) => match parse_invites_spec(utf8_lossy_of(output)) {
            Some(list) => Ok(list),
            None => Err(Error::MalformedRemoteOutput),
        },
    }
}

/// Read the rows back from the list exec.
pub fn invite_list_result(outcome: &ExecOutcome) -> (r: Result<Vec<Invite>, Error>)
    ensures
        match r {
            Ok(list) => list_outcome_spec(outcome@) == Ok::<Seq<InviteV>, Error>(
                invites_view(list@),
            ),
            Err(e) => list_outcome_spec(outcome@) == Err::<Seq<InviteV>, Error>(e),
        },
{
    match outcome {
        ExecOutcome::Detached => Err(Error::RemoteExecutionDetached),
        ExecOutcome::Attached { output } => {
            let text = utf8_lossy(output);
            match parse_invites(text.as_str()) {
                Some(list) => Ok(list),
                None => Err(Error::MalformedRemoteOutput),
            }
        },
    }
}

/// A detached exec fails all three invite operations with
/// `RemoteExecutionDetached`; none of them reads any output.
pub proof fn lemma_detached_fails_all()
    ensures
        create_outcome_spec(ExecOutcomeV::Detached) == Err::<Seq<char>, Error>(
            Error::RemoteExecutionDetached,
        ),
        list_outcome_spec(ExecOutcomeV::Detached) == Err::<Seq<InviteV>, Error>(
            Error::RemoteExecutionDetached,
        ),
        delete_outcome_spec(ExecOutcomeV::Detached) == Err::<(), Error>(
            Error::RemoteExecutionDetached,
        ),
{
}

/// What deleting an invite yields: success is exactly "the exec ran attached
/// and its output stream was drained" — not that a row existed.
pub open spec fn delete_outcome_spec(o: ExecOutcomeV) -> Result<(), Error> {
    match o {
        ExecOutcomeV::Detached => Err(Error::RemoteExecutionDetached),
        ExecOutcomeV::Attached(output) => Ok(()),
    }
}

pub fn invite_delete_result(outcome: &ExecOutcome) -> (r: Result<(), Error>)
    ensures
        r == delete_outcome_spec(outcome@),
{
    match outcome {
        ExecOutcome::Detached => Err(Error::RemoteExecutionDetached),
        ExecOutcome::Attached { output: _ } => Ok(()),
    }
}

} // verus!
