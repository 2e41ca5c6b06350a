//! Instance parameters and their durable label encoding.
//!
//! Parameters are persisted on the engine resource as a textual blob under a
//! fixed label key and recovered during discovery. The format is this tool's
//! own: a format tag, the scalar fields, and length-prefixed strings, all
//! separated by `;`. `decode_from_label` inverts `encode_for_label`: every
//! encoded blob decodes back to the value it came from, and a blob that does
//! not follow the format is rejected — discovery then treats the resource as
//! foreign.
use crate::text::{dec_str, parse_u64_at, parse_u64_from, push_u64};
use crate::versioning::Version;
use vstd::prelude::*;
use vstd::string::*;

verus! {

/// The unique name of an instance.
#[derive(Clone, Debug)]
pub struct Name(pub String);

impl View for Name {
    type V = Seq<char>;

    open spec fn view(&self) -> Seq<char> {
        self.0@
    }
}

impl Name {
    /// Relies on `names::Generator`: with plain naming it always yields an
    /// adjective-noun word, so the result is never empty. The word is chosen
    /// at random; nothing else is promised of it.
    #[verifier::external_body]
    pub fn generate() -> (r: Name)
        ensures
            r@.len() > 0,
    {
        let name = names::Generator::default().next().unwrap();
        Name(name)
    }

    pub fn as_str(&self) -> (r: &str)
        ensures
            r@ == self@,
    {
        self.0.as_str()
    }
}

/// The TCP port the instance serves on.
#[derive(Clone, Copy, PartialEq, Eq, Structural, Debug)]
pub struct Port(pub u16);

impl View for Port {
    type V = u16;

    open spec fn view(&self) -> u16 {
        self.0
    }
}

impl Port {
    pub fn value(&self) -> (r: u16)
        ensures
            r == self@,
    {
        self.0
    }
}

/// Whether users must authenticate before browsing.
#[derive(Clone, Copy, PartialEq, Eq, Structural, Debug)]
pub struct Authentication(pub bool);

impl View for Authentication {
    type V = bool;

    open spec fn view(&self) -> bool {
        self.0
    }
}

impl Authentication {
    pub fn is_required(&self) -> (r: bool)
        ensures
            r == self@,
    {
        self.0
    }

    pub fn display_string(&self) -> (r: String)
        ensures
            self@ ==> r@ == "required"@,
            !self@ ==> r@ == "optional"@,
    {
        if self.0 {
            String::from_str("required")
        } else {
            String::from_str("optional")
        }
    }
}

/// TLS material: a certificate and a private key, present together or absent
/// together — the `Option` of the pair makes a partial pair unrepresentable.
#[derive(Clone, Debug)]
pub struct Tls(pub Option<(String, String)>);

impl View for Tls {
    type V = Option<(Seq<char>, Seq<char>)>;

    open spec fn view(&self) -> Option<(Seq<char>, Seq<char>)> {
        match self.0 {
            Some((c, k)) => Some((c@, k@)),
            None => None,
        }
    }
}

impl Tls {
    pub fn into_inner(self) -> (r: Option<(String, String)>)
        ensures
            match r {
                Some((c, k)) => self@ == Some((c@, k@)),
                None => self@ is None,
            },
    {
        self.0
    }

    pub fn display_string(&self) -> (r: String)
        ensures
            self@ is Some ==> r@ == "enabled"@,
            self@ is None ==> r@ == "disabled"@,
    {
        match &self.0 {
            Some(_) => String::from_str("enabled"),
            None => String::from_str("disabled"),
        }
    }
}

/// Everything needed to (re)create an instance. Immutable once created.
#[derive(Clone, Debug)]
pub struct Parameters {
    pub name: Name,
    pub version: Version,
    pub port: Port,
    pub authentication: Authentication,
    pub tls: Tls,
}

/// The mathematical content of a `Parameters` value.
pub struct ParametersV {
    pub name: Seq<char>,
    pub version: Version,
    pub port: u16,
    pub authentication: bool,
    pub tls: Option<(Seq<char>, Seq<char>)>,
}

impl View for Parameters {
    type V = ParametersV;

    open spec fn view(&self) -> ParametersV {
        ParametersV {
            name: self.name@,
            version: self.version,
            port: self.port@,
            authentication: self.authentication@,
            tls: self.tls@,
        }
    }
}

/// String lengths a real machine can hold; every `Parameters` value built
/// from actual strings satisfies this.
pub open spec fn params_wf(p: ParametersV) -> bool {
    &&& p.name.len() <= u64::MAX
    &&& match p.tls {
        Some((c, k)) => c.len() <= u64::MAX && k.len() <= u64::MAX,
        None => true,
    }
}

pub open spec fn flag_str(b: bool) -> Seq<char> {
    if b {
        seq!['1']
    } else {
        seq!['0']
    }
}

/// A length-prefixed string segment: `<len>;<text>;`.
pub open spec fn lp_str(t: Seq<char>) -> Seq<char> {
    dec_str(t.len()) + seq![';'] + t + seq![';']
}

/// The canonical label encoding of a parameters value.
pub open spec fn encode_spec(p: ParametersV) -> Seq<char> {
    seq!['1', ';'] + dec_str(p.port as nat) + seq![';'] + flag_str(p.authentication) + seq![';']
        + dec_str(p.version.major as nat) + seq![';'] + dec_str(p.version.minor as nat) + seq![';']
        + dec_str(p.version.patch as nat) + seq![';'] + flag_str(p.version.pre) + seq![';'] + lp_str(
        p.name,
    ) + match p.tls {
        None => seq!['0'],
        Some((c, k)) => seq!['1', ';'] + lp_str(c) + lp_str(k),
    }
}

impl Parameters {
    /// Serialize for storage under the parameters label key.
    #[verifier::rlimit(100)]
    #[verifier::spinoff_prover]
    pub fn encode_for_label(&self) -> (r: String)
        ensures
            r@ == encode_spec(self@),
    {
        proof {
            reveal_strlit("1;");
            reveal_strlit(";");
            reveal_strlit("0");
            reveal_strlit("1");
        }
        let mut out = String::new();
        out.append("1;");
        push_u64(&mut out, self.port.0 as u64);
        out.append(";");
        out.append(if self.authentication.0 { "1" } else { "0" });
        out.append(";");
        push_u64(&mut out, self.version.major);
        out.append(";");
        push_u64(&mut out, self.version.minor);
        out.append(";");
        push_u64(&mut out, self.version.patch);
        out.append(";");
        out.append(if self.version.pre { "1" } else { "0" });
        out.append(";");
        push_lp_str(&mut out, self.name.0.as_str());
        match &self.tls.0 {
            None => {
                out.append("0");
            },
            Some((c, k)) => {
                out.append("1;");
                push_lp_str(&mut out, c.as_str());
                push_lp_str(&mut out, k.as_str());
            },
        }
        proof {
            assert(out@ =~= encode_spec(self@));
        }
        out
    }
}

/// A `;` at position `i`.
pub open spec fn parse_semi(s: Seq<char>, i: nat) -> Option<nat> {
    if i < s.len() && s[i as int] == ';' {
        Some((i + 1) as nat)
    } else {
        None
    }
}

/// A `0` or `1` at position `i`.
pub open spec fn parse_flag_at(s: Seq<char>, i: nat) -> Option<(bool, nat)> {
    if i < s.len() && (s[i as int] == '0' || s[i as int] == '1') {
        Some((s[i as int] == '1', (i + 1) as nat))
    } else {
        None
    }
}

/// A decimal number followed by `;`.
pub open spec fn parse_num_semi(s: Seq<char>, i: nat) -> Option<(u64, nat)> {
    match parse_u64_at(s, i) {
        Some((v, j)) => match parse_semi(s, j) {
            Some(k) => Some((v, k)),
            None => None,
        },
        None => None,
    }
}

/// A flag followed by `;`.
pub open spec fn parse_flag_semi(s: Seq<char>, i: nat) -> Option<(bool, nat)> {
    match parse_flag_at(s, i) {
        Some((b, j)) => match parse_semi(s, j) {
            Some(k) => Some((b, k)),
            None => None,
        },
        None => None,
    }
}

/// A length-prefixed string segment `<len>;<text>;`.
pub open spec fn parse_lp_at(s: Seq<char>, i: nat) -> Option<(Seq<char>, nat)> {
    match parse_num_semi(s, i) {
        Some((len, j)) => if j + len <= s.len() {
            match parse_semi(s, (j + len) as nat) {
                Some(k) => Some((s.subrange(j as int, j + len), k)),
                None => None,
            }
        } else {
            None
        },
        None => None,
    }
}

/// The decoder of the label format. Every value of `encode_spec` decodes
/// back to the value it encodes (see `lemma_round_trip`); input outside the
/// format yields `None`.
pub open spec fn decode_spec(s: Seq<char>) -> Option<ParametersV> {
    match parse_flag_semi(s, 0) {
        Some((tag, i1)) => if tag {
            match parse_num_semi(s, i1) {
                Some((port, i2)) => if port <= u16::MAX {
                    match parse_flag_semi(s, i2) {
                        Some((auth, i3)) => match parse_num_semi(s, i3) {
                            Some((major, i4)) => match parse_num_semi(s, i4) {
                                Some((minor, i5)) => match parse_num_semi(s, i5) {
                                    Some((patch, i6)) => match parse_flag_semi(s, i6) {
                                        Some((pre, i7)) => match parse_lp_at(s, i7) {
                                            Some((name, i8)) => match parse_flag_at(s, i8) {
                                                Some((tls_flag, i9)) => if !tls_flag {
                                                    if i9 == s.len() {
                                                        Some(
                                                            ParametersV {
                                                                name,
                                                                version: Version {
                                                                    major,
                                                                    minor,
                                                                    patch,
                                                                    pre,
                                                                },
                                                                port: port as u16,
                                                                authentication: auth,
                                                                tls: None,
                                                            },
                                                        )
                                                    } else {
                                                        None
                                                    }
                                                } else {
                                                    match parse_semi(s, i9) {
                                                        Some(i10) => match parse_lp_at(s, i10) {
                                                            Some((crt, i11)) => match parse_lp_at(
                                                                s,
                                                                i11,
                                                            ) {
                                                                Some((key, i12)) => if i12
                                                                    == s.len() {
                                                                    Some(
                                                                        ParametersV {
                                                                            name,
                                                                            version: Version {
                                                                                major,
                                                                                minor,
                                                                                patch,
                                                                                pre,
                                                                            },
                                                                            port: port as u16,
                                                                            authentication: auth,
                                                                            tls: Some((crt, key)),
                                                                        },
                                                                    )
                                                                } else {
                                                                    None
                                                                },
                                                                None => None,
                                                            },
                                                            None => None,
                                                        },
                                                        None => None,
                                                    }
                                                },
                                                None => None,
                                            },
                                            None => None,
                                        },
                                        None => None,
                                    },
                                    None => None,
                                },
                                None => None,
                            },
                            None => None,
                        },
                        None => None,
                    }
                } else {
                    None
                },
                None => None,
            }
        } else {
            None
        },
        None => None,
    }
}

/// Expect a `;` at position `i`.
fn semi_at(s: &str, slen: usize, i: usize) -> (r: Option<usize>)
    requires
        slen == s@.len(),
    ensures
        match r {
            Some(j) => parse_semi(s@, i as nat) == Some(j as nat),
            None => parse_semi(s@, i as nat) is None,
        },
{
    if i < slen && s.get_char(i) == ';' {
        Some(i + 1)
    } else {
        None
    }
}

/// Expect a `0` or `1` at position `i`.
fn flag_at(s: &str, slen: usize, i: usize) -> (r: Option<(bool, usize)>)
    requires
        slen == s@.len(),
    ensures
        match r {
            Some((b, j)) => parse_flag_at(s@, i as nat) == Some((b, j as nat)),
            None => parse_flag_at(s@, i as nat) is None,
        },
{
    if i < slen {
        let c = s.get_char(i);
        if c == '0' || c == '1' {
            return Some((c == '1', i + 1));
        }
    }
    None
}

/// Expect a decimal number and a `;`.
fn num_semi_at(s: &str, slen: usize, i: usize) -> (r: Option<(u64, usize)>)
    requires
        slen == s@.len(),
    ensures
        match r {
            Some((v, j)) => parse_num_semi(s@, i as nat) == Some((v, j as nat)),
            None => parse_num_semi(s@, i as nat) is None,
        },
{
    match parse_u64_from(s, i) {
        Some((v, j)) => match semi_at(s, slen, j) {
            Some(k) => Some((v, k)),
            None => None,
        },
        None => None,
    }
}

/// Expect a flag and a `;`.
fn flag_semi_at(s: &str, slen: usize, i: usize) -> (r: Option<(bool, usize)>)
    requires
        slen == s@.len(),
    ensures
        match r {
            Some((b, j)) => parse_flag_semi(s@, i as nat) == Some((b, j as nat)),
            None => parse_flag_semi(s@, i as nat) is None,
        },
{
    match flag_at(s, slen, i) {
        Some((b, j)) => match semi_at(s, slen, j) {
            Some(k) => Some((b, k)),
            None => None,
        },
        None => None,
    }
}

/// Expect a `<len>;<text>;` segment.
fn lp_at(s: &str, slen: usize, i: usize) -> (r: Option<(String, usize)>)
    requires
        slen == s@.len(),
    ensures
        match r {
            Some((t, j)) => parse_lp_at(s@, i as nat) == Some((t@, j as nat)),
            None => parse_lp_at(s@, i as nat) is None,
        },
{
    match num_semi_at(s, slen, i) {
        Some((len, j)) => {
            proof {
                crate::text::lemma_parse_u64_range(s@, i as nat);
            }
            if len <= (slen - j) as u64 {
                let end = j + (len as usize);
                match semi_at(s, slen, end) {
                    Some(k) => {
                        let t = s.substring_char(j, end).to_owned();
                        Some((t, k))
                    },
                    None => None,
                }
            } else {
                None
            }
        },
        None => None,
    }
}

impl Parameters {
    /// Recover a parameters value from a label blob; `None` when the blob
    /// does not follow the format.
    pub fn decode_from_label(s: &str) -> (r: Option<Parameters>)
        ensures
            match r {
                Some(p) => decode_spec(s@) == Some(p@),
                None => decode_spec(s@) is None,
            },
    {
        let slen = s.unicode_len();
        let (tag, i1) = match flag_semi_at(s, slen, 0) {
            Some(x) => x,
            None => {
                return None;
            },
        };
        if !tag {
            return None;
        }
        let (port, i2) = match num_semi_at(s, slen, i1) {
            Some(x) => x,
            None => {
                return None;
            },
        };
        if port > 65535 {
            return None;
        }
        let (auth, i3) = match flag_semi_at(s, slen, i2) {
            Some(x) => x,
            None => {
                return None;
            },
        };
        let (major, i4) = match num_semi_at(s, slen, i3) {
            Some(x) => x,
            None => {
                return None;
            },
        };
        let (minor, i5) = match num_semi_at(s, slen, i4) {
            Some(x) => x,
            None => {
                return None;
            },
        };
        let (patch, i6) = match num_semi_at(s, slen, i5) {
            Some(x) => x,
            None => {
                return None;
            },
        };
        let (pre, i7) = match flag_semi_at(s, slen, i6) {
            Some(x) => x,
            None => {
                return None;
            },
        };
        let (name, i8) = match lp_at(s, slen, i7) {
            Some(x) => x,
            None => {
                return None;
            },
        };
        let (tls_flag, i9) = match flag_at(s, slen, i8) {
            Some(x) => x,
            None => {
                return None;
            },
        };
        if !tls_flag {
            if i9 == slen {
                return Some(
                    Parameters {
                        name: Name(name),
                        version: Version { major, minor, patch, pre },
                        port: Port(port as u16),
                        authentication: Authentication(auth),
                        tls: Tls(None),
                    },
                );
            } else {
                return None;
            }
        }
        let i10 = match semi_at(s, slen, i9) {
            Some(x) => x,
            None => {
                return None;
            },
        };
        let (crt, i11) = match lp_at(s, slen, i10) {
            Some(x) => x,
            None => {
                return None;
            },
        };
        let (key, i12) = match lp_at(s, slen, i11) {
            Some(x) => x,
            None => {
                return None;
            },
        };
        if i12 == slen {
            Some(
                Parameters {
                    name: Name(name),
                    version: Version { major, minor, patch, pre },
                    port: Port(port as u16),
                    authentication: Authentication(auth),
                    tls: Tls(Some((crt, key))),
                },
            )
        } else {
            None
        }
    }
}

proof fn lemma_num_semi_seg(s: Seq<char>, a: Seq<char>, n: u64, b: Seq<char>)
    requires
        s == a + dec_str(n as nat) + seq![';'] + b,
    ensures
        parse_num_semi(s, a.len()) == Some((n, (a.len() + dec_str(n as nat).len() + 1) as nat)),
{
    let ds = dec_str(n as nat);
    let i = a.len();
    crate::text::lemma_dec_str_digits(n as nat);
    assert(s.len() == i + ds.len() + 1 + b.len());
    assert(s.subrange(i as int, (i + ds.len()) as int) =~= ds);
    assert(s[(i + ds.len()) as int] == ';');
    assert(!crate::text::is_digit(';'));
    crate::text::lemma_parse_dec_str(s, i, n);
    let j = (i + ds.len()) as nat;
    assert(parse_semi(s, j) == Some((j + 1) as nat));
}

proof fn lemma_flag_semi_seg(s: Seq<char>, a: Seq<char>, v: bool, b: Seq<char>)
    requires
        s == a + flag_str(v) + seq![';'] + b,
    ensures
        parse_flag_semi(s, a.len()) == Some((v, (a.len() + 2) as nat)),
{
    let i = a.len();
    assert(s[i as int] == flag_str(v)[0]);
    assert(s[i as int + 1] == ';');
    assert(parse_flag_at(s, i) == Some((v, (i + 1) as nat)));
    assert(parse_semi(s, (i + 1) as nat) == Some((i + 2) as nat));
}

proof fn lemma_lp_seg(s: Seq<char>, a: Seq<char>, t: Seq<char>, b: Seq<char>)
    requires
        s == a + lp_str(t) + b,
        t.len() <= u64::MAX,
    ensures
        parse_lp_at(s, a.len()) == Some((t, (a.len() + lp_str(t).len()) as nat)),
{
    let n = t.len() as u64;
    let ds = dec_str(t.len());
    let i = a.len();
    assert(s =~= a + dec_str(n as nat) + seq![';'] + (t + seq![';'] + b));
    lemma_num_semi_seg(s, a, n, t + seq![';'] + b);
    let j = (i + ds.len() + 1) as nat;
    assert(j + n <= s.len());
    assert(s.subrange(j as int, j + n) =~= t);
    assert(s[(j + n) as int] == ';');
    assert(parse_semi(s, (j + n) as nat) == Some((j + n + 1) as nat));
    assert((j + n + 1) as nat == (a.len() + lp_str(t).len()) as nat);
}

/// End position of the format-tag segment inside an encoding.
pub open spec fn q1(p: ParametersV) -> nat {
    2
}

pub open spec fn q2(p: ParametersV) -> nat {
    (q1(p) + dec_str(p.port as nat).len() + 1) as nat
}

pub open spec fn q3(p: ParametersV) -> nat {
    (q2(p) + 2) as nat
}

pub open spec fn q4(p: ParametersV) -> nat {
    (q3(p) + dec_str(p.version.major as nat).len() + 1) as nat
}

pub open spec fn q5(p: ParametersV) -> nat {
    (q4(p) + dec_str(p.version.minor as nat).len() + 1) as nat
}

pub open spec fn q6(p: ParametersV) -> nat {
    (q5(p) + dec_str(p.version.patch as nat).len() + 1) as nat
}

pub open spec fn q7(p: ParametersV) -> nat {
    (q6(p) + 2) as nat
}

pub open spec fn q8(p: ParametersV) -> nat {
    (q7(p) + lp_str(p.name).len()) as nat
}

/// The tail of an encoding after the name segment.
pub open spec fn enc_tail(p: ParametersV) -> Seq<char> {
    match p.tls {
        None => seq!['0'],
        Some((c, k)) => seq!['1', ';'] + lp_str(c) + lp_str(k),
    }
}

/// The encoding, regrouped segment by segment.
#[verifier::rlimit(100)]
#[verifier::spinoff_prover]
proof fn lemma_enc_shape(p: ParametersV)
    ensures
        encode_spec(p) == flag_str(true) + seq![';'] + (dec_str(p.port as nat) + seq![';'] + (
        flag_str(p.authentication) + seq![';'] + (dec_str(p.version.major as nat) + seq![';'] + (
        dec_str(p.version.minor as nat) + seq![';'] + (dec_str(p.version.patch as nat) + seq![';']
            + (flag_str(p.version.pre) + seq![';'] + (lp_str(p.name) + enc_tail(p)))))))),
{
    let u1 = flag_str(true);
    let u2 = seq![';'];
    let u3 = dec_str(p.port as nat);
    let u4 = seq![';'];
    let u5 = flag_str(p.authentication);
    let u6 = seq![';'];
    let u7 = dec_str(p.version.major as nat);
    let u8 = seq![';'];
    let u9 = dec_str(p.version.minor as nat);
    let u10 = seq![';'];
    let u11 = dec_str(p.version.patch as nat);
    let u12 = seq![';'];
    let u13 = flag_str(p.version.pre);
    let u14 = seq![';'];
    let u15 = lp_str(p.name);
    let u16 = enc_tail(p);
    let l2 = u1 + u2;
    let l3 = l2 + u3;
    let l4 = l3 + u4;
    let l5 = l4 + u5;
    let l6 = l5 + u6;
    let l7 = l6 + u7;
    let l8 = l7 + u8;
    let l9 = l8 + u9;
    let l10 = l9 + u10;
    let l11 = l10 + u11;
    let l12 = l11 + u12;
    let l13 = l12 + u13;
    let l14 = l13 + u14;
    let l15 = l14 + u15;
    let r16 = u16;
    let r15 = u15 + r16;
    let r14 = u14 + r15;
    let r13 = u13 + r14;
    let r12 = u12 + r13;
    let r11 = u11 + r12;
    let r10 = u10 + r11;
    let r9 = u9 + r10;
    let r8 = u8 + r9;
    let r7 = u7 + r8;
    let r6 = u6 + r7;
    let r5 = u5 + r6;
    let r4 = u4 + r5;
    let r3 = u3 + r4;
    let r2 = u2 + r3;
    assert(seq!['1', ';'] =~= l2);
    assert(encode_spec(p) == l15 + u16);
    lemma_seq_assoc(l14, u15, r16);
    lemma_seq_assoc(l13, u14, r15);
    lemma_seq_assoc(l12, u13, r14);
    lemma_seq_assoc(l11, u12, r13);
    lemma_seq_assoc(l10, u11, r12);
    lemma_seq_assoc(l9, u10, r11);
    lemma_seq_assoc(l8, u9, r10);
    lemma_seq_assoc(l7, u8, r9);
    lemma_seq_assoc(l6, u7, r8);
    lemma_seq_assoc(l5, u6, r7);
    lemma_seq_assoc(l4, u5, r6);
    lemma_seq_assoc(l3, u4, r5);
    lemma_seq_assoc(l2, u3, r4);
    lemma_seq_assoc(u1, u2, r3);
}

proof fn lemma_seq_assoc(a: Seq<char>, b: Seq<char>, c: Seq<char>)
    ensures
        (a + b) + c == a + (b + c),
{
    assert((a + b) + c =~= a + (b + c));
}

#[verifier::rlimit(100)]
#[verifier::spinoff_prover]
proof fn lemma_rt_tag(p: ParametersV)
    ensures
        parse_flag_semi(encode_spec(p), 0) == Some((true, q1(p))),
{
    let s = encode_spec(p);
    lemma_enc_shape(p);
    let b = s.skip(2);
    assert(s =~= Seq::<char>::empty() + flag_str(true) + seq![';'] + b);
    lemma_flag_semi_seg(s, Seq::<char>::empty(), true, b);
}

#[verifier::rlimit(100)]
#[verifier::spinoff_prover]
proof fn lemma_rt_port(p: ParametersV)
    ensures
        parse_num_semi(encode_spec(p), q1(p)) == Some((p.port as u64, q2(p))),
{
    let s = encode_spec(p);
    lemma_enc_shape(p);
    let a = flag_str(true) + seq![';'];
    let b = s.skip(q2(p) as int);
    assert(a.len() == q1(p));
    assert(s =~= a + dec_str(p.port as nat) + seq![';'] + b);
    lemma_num_semi_seg(s, a, p.port as u64, b);
}

#[verifier::rlimit(100)]
#[verifier::spinoff_prover]
proof fn lemma_rt_auth(p: ParametersV)
    ensures
        parse_flag_semi(encode_spec(p), q2(p)) == Some((p.authentication, q3(p))),
{
    let s = encode_spec(p);
    lemma_enc_shape(p);
    let a = s.take(q2(p) as int);
    let b = s.skip(q3(p) as int);
    assert(s =~= a + flag_str(p.authentication) + seq![';'] + b);
    lemma_flag_semi_seg(s, a, p.authentication, b);
}

#[verifier::rlimit(100)]
#[verifier::spinoff_prover]
proof fn lemma_rt_major(p: ParametersV)
    ensures
        parse_num_semi(encode_spec(p), q3(p)) == Some((p.version.major, q4(p))),
{
    let s = encode_spec(p);
    lemma_enc_shape(p);
    let a = s.take(q3(p) as int);
    let b = s.skip(q4(p) as int);
    assert(s =~= a + dec_str(p.version.major as nat) + seq![';'] + b);
    lemma_num_semi_seg(s, a, p.version.major, b);
}

#[verifier::rlimit(100)]
#[verifier::spinoff_prover]
proof fn lemma_rt_minor(p: ParametersV)
    ensures
        parse_num_semi(encode_spec(p), q4(p)) == Some((p.version.minor, q5(p))),
{
    let s = encode_spec(p);
    lemma_enc_shape(p);
    let a = s.take(q4(p) as int);
    let b = s.skip(q5(p) as int);
    assert(s =~= a + dec_str(p.version.minor as nat) + seq![';'] + b);
    lemma_num_semi_seg(s, a, p.version.minor, b);
}

#[verifier::rlimit(100)]
#[verifier::spinoff_prover]
proof fn lemma_rt_patch(p: ParametersV)
    ensures
        parse_num_semi(encode_spec(p), q5(p)) == Some((p.version.patch, q6(p))),
{
    let s = encode_spec(p);
    lemma_enc_shape(p);
    let a = s.take(q5(p) as int);
    let b = s.skip(q6(p) as int);
    assert(s =~= a + dec_str(p.version.patch as nat) + seq![';'] + b);
    lemma_num_semi_seg(s, a, p.version.patch, b);
}

#[verifier::rlimit(100)]
#[verifier::spinoff_prover]
proof fn lemma_rt_pre(p: ParametersV)
    ensures
        parse_flag_semi(encode_spec(p), q6(p)) == Some((p.version.pre, q7(p))),
{
    let s = encode_spec(p);
    lemma_enc_shape(p);
    let a = s.take(q6(p) as int);
    let b = s.skip(q7(p) as int);
    assert(s =~= a + flag_str(p.version.pre) + seq![';'] + b);
    lemma_flag_semi_seg(s, a, p.version.pre, b);
}

#[verifier::rlimit(100)]
#[verifier::spinoff_prover]
proof fn lemma_rt_name(p: ParametersV)
    requires
        params_wf(p),
    ensures
        parse_lp_at(encode_spec(p), q7(p)) == Some((p.name, q8(p))),
        encode_spec(p).len() == q8(p) + enc_tail(p).len(),
{
    let s = encode_spec(p);
    lemma_enc_shape(p);
    let a = s.take(q7(p) as int);
    let b = enc_tail(p);
    assert(s =~= a + lp_str(p.name) + b);
    lemma_lp_seg(s, a, p.name, b);
}

#[verifier::rlimit(100)]
#[verifier::spinoff_prover]
proof fn lemma_rt_tail(p: ParametersV)
    requires
        params_wf(p),
    ensures
        match p.tls {
            None => parse_flag_at(encode_spec(p), q8(p)) == Some((false, (q8(p) + 1) as nat))
                && encode_spec(p).len() == q8(p) + 1,
            Some((c, k)) => {
                let s = encode_spec(p);
                let j0 = (q8(p) + 2) as nat;
                let j1 = (j0 + lp_str(c).len()) as nat;
                let j2 = (j1 + lp_str(k).len()) as nat;
                parse_flag_at(s, q8(p)) == Some((true, (q8(p) + 1) as nat)) && parse_semi(
                    s,
                    (q8(p) + 1) as nat,
                ) == Some(j0) && parse_lp_at(s, j0) == Some((c, j1)) && parse_lp_at(s, j1) == Some(
                    (k, j2),
                ) && s.len() == j2
            },
        },
{
    let s = encode_spec(p);
    lemma_rt_name(p);
    match p.tls {
        None => {
            assert(s[q8(p) as int] == enc_tail(p)[0]);
        },
        Some((c, k)) => {
            let j0 = (q8(p) + 2) as nat;
            let j1 = (j0 + lp_str(c).len()) as nat;
            assert(s[q8(p) as int] == enc_tail(p)[0]);
            assert(s[q8(p) as int + 1] == enc_tail(p)[1]);
            let a0 = s.take(j0 as int);
            assert(s =~= a0 + lp_str(c) + lp_str(k));
            lemma_lp_seg(s, a0, c, lp_str(k));
            let a1 = s.take(j1 as int);
            assert(s =~= a1 + lp_str(k) + Seq::<char>::empty());
            lemma_lp_seg(s, a1, k, Seq::<char>::empty());
        },
    }
}

/// Decoding inverts encoding: every parameters value a machine can hold comes
/// back unchanged from its own label blob.
#[verifier::rlimit(100)]
#[verifier::spinoff_prover]
pub proof fn lemma_round_trip(p: ParametersV)
    requires
        params_wf(p),
    ensures
        decode_spec(encode_spec(p)) == Some(p),
{
    let s = encode_spec(p);
    lemma_rt_tag(p);
    lemma_rt_port(p);
    lemma_rt_auth(p);
    lemma_rt_major(p);
    lemma_rt_minor(p);
    lemma_rt_patch(p);
    lemma_rt_pre(p);
    lemma_rt_name(p);
    lemma_rt_tail(p);
}

/// Append `<len>;<text>;` to `out`.
fn push_lp_str(out: &mut String, t: &str)
    ensures
        final(out)@ == old(out)@ + lp_str(t@),
{
    proof {
        reveal_strlit(";");
    }
    let len = t.unicode_len();
    push_u64(out, len as u64);
    out.append(";");
    out.append(t);
    out.append(";");
    assert(out@ =~= old(out)@ + lp_str(t@));
}

} // verus!
