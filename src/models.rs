use crate::text::{
    all_digits, bytes_eq, decimal_value, lines_of, parse_digits, split_bytes, split_spec, text_lines,
    views,
};
use vstd::prelude::*;

verus! {

/// `s` without a leading `+`.
pub open spec fn unsigned_digits(s: Seq<u8>) -> Seq<u8> {
    if s.len() > 0 && s[0] == 43u8 {
        s.skip(1)
    } else {
        s
    }
}

/// The `usize` that `s` writes in decimal, with an optional leading `+`.
pub open spec fn parse_usize_spec(s: Seq<u8>) -> Option<usize> {
    let d = unsigned_digits(s);
    if all_digits(d) && decimal_value(d) <= usize::MAX {
        Some(decimal_value(d) as usize)
    } else {
        None
    }
}

/// The `i32` that `s` writes in decimal, with an optional leading `+` or `-`.
pub open spec fn parse_i32_spec(s: Seq<u8>) -> Option<i32> {
    if s.len() > 0 && s[0] == 45u8 {
        let d = s.skip(1);
        if all_digits(d) && decimal_value(d) <= 0x8000_0000 {
            Some((-decimal_value(d)) as i32)
        } else {
            None
        }
    } else {
        let d = unsigned_digits(s);
        if all_digits(d) && decimal_value(d) <= 0x7fff_ffff {
            Some(decimal_value(d) as i32)
        } else {
            None
        }
    }
}

/// Reads a `usize` written in decimal.
pub fn parse_usize(s: &[u8]) -> (r: Option<usize>)
    ensures
        r == parse_usize_spec(s@),
{
    let start: usize = if s.len() > 0 && s[0] == 43u8 {
        1
    } else {
        0
    };
    assert(s@.skip(start as int) =~= unsigned_digits(s@));
    match parse_digits(s, start, usize::MAX as u64) {
        Some(v) => Some(v as usize),
        None => None,
    }
}

/// Reads an `i32` written in decimal.
pub fn parse_i32(s: &[u8]) -> (r: Option<i32>)
    ensures
        r == parse_i32_spec(s@),
{
    if s.len() > 0 && s[0] == 45u8 {
        match parse_digits(s, 1, 0x8000_0000) {
            Some(v) => {
                let neg: i64 = -(v as i64);
                Some(neg as i32)
            },
            None => None,
        }
    } else {
        let start: usize = if s.len() > 0 && s[0] == 43u8 {
            1
        } else {
            0
        };
        assert(s@.skip(start as int) =~= unsigned_digits(s@));
        match parse_digits(s, start, 0x7fff_ffff) {
            Some(v) => Some(v as i32),
            None => None,
        }
    }
}

/// The first position from `i` on where `s` holds `b`, or `s.len()`.
pub open spec fn index_from(s: Seq<u8>, b: u8, i: int) -> int
    decreases s.len() - i,
{
    if i < 0 || i >= s.len() {
        s.len() as int
    } else if s[i] == b {
        i
    } else {
        index_from(s, b, i + 1)
    }
}

/// A header line split at its first space into a key and a value.
pub open spec fn split_header_spec(line: Seq<u8>) -> Option<(Seq<u8>, Seq<u8>)> {
    let i = index_from(line, 32u8, 0);
    if i < line.len() {
        Some((line.take(i), line.skip(i + 1)))
    } else {
        None
    }
}

/// Splits a header line at its first space.
pub fn split_header(line: &[u8]) -> (r: Option<(Vec<u8>, Vec<u8>)>)
    ensures
        match split_header_spec(line@) {
            Some(kv) => r is Some && r->Some_0.0@ == kv.0 && r->Some_0.1@ == kv.1,
            None => r is None,
        },
{
    let mut i: usize = 0;
    while i < line.len() && line[i] != 32u8
        invariant
            i <= line@.len(),
            index_from(line@, 32u8, 0) == index_from(line@, 32u8, i as int),
        decreases line@.len() - i,
    {
        i += 1;
    }
    if i == line.len() {
        return None;
    }
    let mut key: Vec<u8> = Vec::new();
    let mut k: usize = 0;
    while k < i
        invariant
            i < line@.len(),
            k <= i,
            key@ == line@.take(k as int),
        decreases i - k,
    {
        key.push(line[k]);
        assert(line@.take(k + 1) =~= line@.take(k as int).push(line@[k as int]));
        k += 1;
    }
    let mut value: Vec<u8> = Vec::new();
    let mut k: usize = i + 1;
    while k < line.len()
        invariant
            i < line@.len(),
            i + 1 <= k <= line@.len(),
            value@ == line@.subrange(i + 1, k as int),
        decreases line@.len() - k,
    {
        value.push(line[k]);
        assert(line@.subrange(i + 1, k + 1) =~= line@.subrange(i + 1, k as int).push(line@[k as int]));
        k += 1;
    }
    assert(value@ =~= line@.skip(i + 1));
    Some((key, value))
}

/// The views of header pairs.
pub open spec fn pair_views(v: Seq<(Vec<u8>, Vec<u8>)>) -> Seq<(Seq<u8>, Seq<u8>)> {
    Seq::new(v.len(), |i: int| (v[i].0@, v[i].1@))
}

/// The value of the last header whose key is `key`: a later header replaces
/// an earlier one.
pub open spec fn lookup(hs: Seq<(Seq<u8>, Seq<u8>)>, key: Seq<u8>) -> Option<Seq<u8>>
    decreases hs.len(),
{
    if hs.len() == 0 {
        None
    } else if hs.last().0 == key {
        Some(hs.last().1)
    } else {
        lookup(hs.drop_last(), key)
    }
}

/// Looks up the value of header `key`.
pub fn lookup_header<'a>(hs: &'a Vec<(Vec<u8>, Vec<u8>)>, key: &[u8]) -> (r: Option<&'a Vec<u8>>)
    ensures
        match lookup(pair_views(hs@), key@) {
            Some(v) => r is Some && r->Some_0@ == v,
            None => r is None,
        },
{
    let ghost all = pair_views(hs@);
    let mut i: usize = hs.len();
    assert(all.take(i as int) =~= all);
    while i > 0
        invariant
            i <= hs@.len(),
            all == pair_views(hs@),
            lookup(all, key@) == lookup(all.take(i as int), key@),
        decreases i,
    {
        proof {
            assert(all.take(i as int).drop_last() =~= all.take(i - 1));
        }
        if bytes_eq(hs[i - 1].0.as_slice(), key) {
            return Some(&hs[i - 1].1);
        }
        i -= 1;
    }
    None
}

/// Which kind of support-vector machine a model is.
#[derive(Clone, Copy, Debug, PartialEq, Eq, Structural)]
pub enum SvmType {
    CSvc,
    NuSvc,
    OneClass,
    EpsilonSvr,
    NuSvr,
}

/// The machine kind that the tag `ty` names.
pub open spec fn svm_type_spec(ty: Seq<u8>) -> Option<SvmType> {
    if ty == seq![99u8, 95, 115, 118, 99] {
        Some(SvmType::CSvc)
    } else if ty == seq![110u8, 117, 95, 115, 118, 99] {
        Some(SvmType::NuSvc)
    } else if ty == seq![111u8, 110, 101, 95, 99, 108, 97, 115, 115] {
        Some(SvmType::OneClass)
    } else if ty == seq![101u8, 112, 115, 105, 108, 111, 110, 95, 115, 118, 114] {
        Some(SvmType::EpsilonSvr)
    } else if ty == seq![110u8, 117, 95, 115, 118, 114] {
        Some(SvmType::NuSvr)
    } else {
        None
    }
}

impl SvmType {
    /// Reads a machine kind from its tag: `c_svc`, `nu_svc`, `one_class`,
    /// `epsilon_svr` or `nu_svr`.
    pub fn parse(ty: &[u8]) -> (r: Option<SvmType>)
        ensures
            r == svm_type_spec(ty@),
    {
        let c_svc: [u8; 5] = [99, 95, 115, 118, 99];
        let nu_svc: [u8; 6] = [110, 117, 95, 115, 118, 99];
        let one_class: [u8; 9] = [111, 110, 101, 95, 99, 108, 97, 115, 115];
        let epsilon_svr: [u8; 11] = [101, 112, 115, 105, 108, 111, 110, 95, 115, 118, 114];
        let nu_svr: [u8; 6] = [110, 117, 95, 115, 118, 114];
        if bytes_eq(ty, &c_svc) {
            Some(SvmType::CSvc)
        } else if bytes_eq(ty, &nu_svc) {
            Some(SvmType::NuSvc)
        } else if bytes_eq(ty, &one_class) {
            Some(SvmType::OneClass)
        } else if bytes_eq(ty, &epsilon_svr) {
            Some(SvmType::EpsilonSvr)
        } else if bytes_eq(ty, &nu_svr) {
            Some(SvmType::NuSvr)
        } else {
            None
        }
    }
}

/// `svm_type`
pub open spec fn svm_type_tag() -> Seq<u8> {
    seq![115u8, 118, 109, 95, 116, 121, 112, 101]
}

/// `kernel_type`
pub open spec fn kernel_type_tag() -> Seq<u8> {
    seq![107u8, 101, 114, 110, 101, 108, 95, 116, 121, 112, 101]
}

/// `nr_class`
pub open spec fn nr_class_tag() -> Seq<u8> {
    seq![110u8, 114, 95, 99, 108, 97, 115, 115]
}

/// `total_sv`
pub open spec fn total_sv_tag() -> Seq<u8> {
    seq![116u8, 111, 116, 97, 108, 95, 115, 118]
}

/// `rho`
pub open spec fn rho_tag() -> Seq<u8> {
    seq![114u8, 104, 111]
}

/// `probA`
pub open spec fn proba_tag() -> Seq<u8> {
    seq![112u8, 114, 111, 98, 65]
}

/// `probB`
pub open spec fn probb_tag() -> Seq<u8> {
    seq![112u8, 114, 111, 98, 66]
}

/// `degree`
pub open spec fn degree_tag() -> Seq<u8> {
    seq![100u8, 101, 103, 114, 101, 101]
}

/// `gamma`
pub open spec fn gamma_tag() -> Seq<u8> {
    seq![103u8, 97, 109, 109, 97]
}

/// `coef0`
pub open spec fn coef0_tag() -> Seq<u8> {
    seq![99u8, 111, 101, 102, 48]
}

/// `SV`
pub open spec fn sv_tag() -> Seq<u8> {
    seq![83u8, 86]
}

/// `linear`
pub open spec fn linear_tag() -> Seq<u8> {
    seq![108u8, 105, 110, 101, 97, 114]
}

/// `polynomial`
pub open spec fn polynomial_tag() -> Seq<u8> {
    seq![112u8, 111, 108, 121, 110, 111, 109, 105, 97, 108]
}

/// `rbf`
pub open spec fn rbf_tag() -> Seq<u8> {
    seq![114u8, 98, 102]
}

/// `sigmoid`
pub open spec fn sigmoid_tag() -> Seq<u8> {
    seq![115u8, 105, 103, 109, 111, 105, 100]
}

/// `precomputed`
pub open spec fn precomputed_tag() -> Seq<u8> {
    seq![112u8, 114, 101, 99, 111, 109, 112, 117, 116, 101, 100]
}

/// Why an SVR parameter file could not be read.
#[derive(Clone, Copy, Debug, PartialEq, Eq, Structural)]
pub enum SvmError {
    /// A header line holds no space between key and value.
    MalformedHeader,
    /// A header that the model needs is absent.
    MissingHeader,
    /// `svm_type` names no known machine kind.
    UnknownSvmType,
    /// `kernel_type` names no known kernel.
    UnknownKernelType,
    /// An integer header does not hold a valid integer, or `nr_class` is zero.
    BadNumber,
    /// A support-vector line holds a feature without `index:value` form.
    MalformedSupportVector,
    /// The number of support-vector lines differs from `total_sv`.
    SupportVectorCountMismatch,
    /// `rho` is present but does not hold `nr_class * (nr_class - 1) / 2` values.
    RhoCountMismatch,
}

/// The kernel of a support-vector machine. Real-valued parameters are kept
/// as the decimal text they were written in.
pub enum KernelType {
    Linear,
    Polynomial { degree: i32, gamma: Vec<u8>, coef0: Vec<u8> },
    Rbf { gamma: Vec<u8> },
    Sigmoid { gamma: Vec<u8>, coef0: Vec<u8> },
    Precomputed,
}

/// The error, if any, of reading the kernel tagged `ty` with the headers `hs`.
pub open spec fn kernel_error(ty: Seq<u8>, hs: Seq<(Seq<u8>, Seq<u8>)>) -> Option<SvmError> {
    if ty == linear_tag() || ty == precomputed_tag() {
        None
    } else if ty == polynomial_tag() {
        match lookup(hs, degree_tag()) {
            None => Some(SvmError::MissingHeader),
            Some(d) => if parse_i32_spec(d) is None {
                Some(SvmError::BadNumber)
            } else if lookup(hs, gamma_tag()) is None || lookup(hs, coef0_tag()) is None {
                Some(SvmError::MissingHeader)
            } else {
                None
            },
        }
    } else if ty == rbf_tag() {
        if lookup(hs, gamma_tag()) is None {
            Some(SvmError::MissingHeader)
        } else {
            None
        }
    } else if ty == sigmoid_tag() {
        if lookup(hs, gamma_tag()) is None || lookup(hs, coef0_tag()) is None {
            Some(SvmError::MissingHeader)
        } else {
            None
        }
    } else {
        Some(SvmError::UnknownKernelType)
    }
}

/// `k` is the kernel tagged `ty`, its parameters read from the headers `hs`.
pub open spec fn kernel_matches(k: KernelType, ty: Seq<u8>, hs: Seq<(Seq<u8>, Seq<u8>)>) -> bool {
    match k {
        KernelType::Linear => ty == linear_tag(),
        KernelType::Polynomial { degree, gamma, coef0 } => {
            &&& ty == polynomial_tag()
            &&& lookup(hs, degree_tag()) is Some
            &&& parse_i32_spec(lookup(hs, degree_tag())->Some_0) == Some(degree)
            &&& lookup(hs, gamma_tag()) == Some(gamma@)
            &&& lookup(hs, coef0_tag()) == Some(coef0@)
        },
        KernelType::Rbf { gamma } => ty == rbf_tag() && lookup(hs, gamma_tag()) == Some(gamma@),
        KernelType::Sigmoid { gamma, coef0 } => {
            &&& ty == sigmoid_tag()
            &&& lookup(hs, gamma_tag()) == Some(gamma@)
            &&& lookup(hs, coef0_tag()) == Some(coef0@)
        },
        KernelType::Precomputed => ty == precomputed_tag(),
    }
}

/// A header's value, copied.
fn header_value(hs: &Vec<(Vec<u8>, Vec<u8>)>, key: &[u8]) -> (r: Option<Vec<u8>>)
    ensures
        match lookup(pair_views(hs@), key@) {
            Some(v) => r is Some && r->Some_0@ == v,
            None => r is None,
        },
{
    match lookup_header(hs, key) {
        Some(v) => Some(v.clone()),
        None => None,
    }
}

impl KernelType {
    /// Reads the kernel tagged `ty` (`linear`, `polynomial`, `rbf`,
    /// `sigmoid` or `precomputed`), with the parameters it needs from the
    /// headers: `degree`, `gamma` and `coef0` as it applies.
    pub fn parse(ty: &[u8], headers: &Vec<(Vec<u8>, Vec<u8>)>) -> (r: Result<KernelType, SvmError>)
        ensures
            match kernel_error(ty@, pair_views(headers@)) {
                Some(e) => r == Err::<KernelType, SvmError>(e),
                None => r is Ok && kernel_matches(r->Ok_0, ty@, pair_views(headers@)),
            },
    {
        let linear: [u8; 6] = [108, 105, 110, 101, 97, 114];
        let polynomial: [u8; 10] = [112, 111, 108, 121, 110, 111, 109, 105, 97, 108];
        let rbf: [u8; 3] = [114, 98, 102];
        let sigmoid: [u8; 7] = [115, 105, 103, 109, 111, 105, 100];
        let precomputed: [u8; 11] = [112, 114, 101, 99, 111, 109, 112, 117, 116, 101, 100];
        let degree_key: [u8; 6] = [100, 101, 103, 114, 101, 101];
        let gamma_key: [u8; 5] = [103, 97, 109, 109, 97];
        let coef0_key: [u8; 5] = [99, 111, 101, 102, 48];
        if bytes_eq(ty, &linear) {
            Ok(KernelType::Linear)
        } else if bytes_eq(ty, &polynomial) {
            let degree = match lookup_header(headers, &degree_key) {
                None => {
                    return Err(SvmError::MissingHeader);
                },
                Some(d) => match parse_i32(d.as_slice()) {
                    None => {
                        return Err(SvmError::BadNumber);
                    },
                    Some(v) => v,
                },
            };
            let gamma = header_value(headers, &gamma_key);
            let coef0 = header_value(headers, &coef0_key);
            match (gamma, coef0) {
                (Some(gamma), Some(coef0)) => Ok(KernelType::Polynomial { degree, gamma, coef0 }),
                _ => Err(SvmError::MissingHeader),
            }
        } else if bytes_eq(ty, &rbf) {
            match header_value(headers, &gamma_key) {
                Some(gamma) => Ok(KernelType::Rbf { gamma }),
                None => Err(SvmError::MissingHeader),
            }
        } else if bytes_eq(ty, &sigmoid) {
            let gamma = header_value(headers, &gamma_key);
            let coef0 = header_value(headers, &coef0_key);
            match (gamma, coef0) {
                (Some(gamma), Some(coef0)) => Ok(KernelType::Sigmoid { gamma, coef0 }),
                _ => Err(SvmError::MissingHeader),
            }
        } else if bytes_eq(ty, &precomputed) {
            Ok(KernelType::Precomputed)
        } else {
            Err(SvmError::UnknownKernelType)
        }
    }
}

/// One sparse feature of a support vector; its value is kept as the
/// decimal text it was written in.
pub struct SvNode {
    pub index: usize,
    pub value: Vec<u8>,
}

/// A support vector: its `nr_class - 1` coefficients, kept as decimal text,
/// and its sparse features.
pub struct Sv {
    pub coeffs: Vec<Vec<u8>>,
    pub nodes: Vec<SvNode>,
}

/// A feature token has the form `index:value` with a decimal index.
pub open spec fn node_ok(tok: Seq<u8>) -> bool {
    let parts = split_spec(tok, 58u8);
    parts.len() >= 2 && parse_usize_spec(parts[0]) is Some
}

/// `n` is the feature that the token `tok` writes.
pub open spec fn node_matches(n: SvNode, tok: Seq<u8>) -> bool {
    let parts = split_spec(tok, 58u8);
    &&& parts.len() >= 2
    &&& parse_usize_spec(parts[0]) == Some(n.index)
    &&& n.value@ == parts[1]
}

/// A support-vector line holds at least `nr_class - 1` space-separated
/// tokens, the coefficients, and every token after them is a feature.
pub open spec fn sv_line_ok(line: Seq<u8>, nr_class: int) -> bool {
    let toks = split_spec(line, 32u8);
    &&& toks.len() >= nr_class - 1
    &&& forall|i: int| nr_class - 1 <= i < toks.len() ==> node_ok(#[trigger] toks[i])
}

/// `sv` is the support vector that `line` writes: its first `nr_class - 1`
/// tokens are coefficients, the rest features.
pub open spec fn sv_matches(sv: Sv, line: Seq<u8>, nr_class: int) -> bool {
    let toks = split_spec(line, 32u8);
    let c = nr_class - 1;
    &&& views(sv.coeffs@) == toks.take(c)
    &&& sv.nodes@.len() == toks.len() - c
    &&& forall|i: int| 0 <= i < sv.nodes@.len() ==> node_matches(#[trigger] sv.nodes@[i], toks[c + i])
}

/// Reads one support-vector line.
pub fn parse_sv_line(line: &[u8], nr_class: usize) -> (r: Result<Sv, SvmError>)
    requires
        nr_class >= 1,
    ensures
        sv_line_ok(line@, nr_class as int) ==> r is Ok && sv_matches(r->Ok_0, line@, nr_class as int),
        !sv_line_ok(line@, nr_class as int) ==> r == Err::<Sv, SvmError>(SvmError::MalformedSupportVector),
{
    let toks = split_bytes(line, 32u8);
    let ghost ts = split_spec(line@, 32u8);
    let c: usize = nr_class - 1;
    if toks.len() < c {
        return Err(SvmError::MalformedSupportVector);
    }
    let mut coeffs: Vec<Vec<u8>> = Vec::new();
    let mut i: usize = 0;
    while i < c
        invariant
            views(toks@) == ts,
            c <= toks@.len(),
            i <= c,
            views(coeffs@) == ts.take(i as int),
        decreases c - i,
    {
        let t = toks[i].clone();
        proof {
            assert(t@ == ts[i as int]);
        }
        let ghost before = coeffs@;
        coeffs.push(t);
        proof {
            assert(views(coeffs@) =~= views(before).push(t@));
            assert(ts.take(i + 1) =~= ts.take(i as int).push(ts[i as int]));
        }
        i += 1;
    }
    let mut nodes: Vec<SvNode> = Vec::new();
    let mut i: usize = c;
    while i < toks.len()
        invariant
            ts == split_spec(line@, 32u8),
            views(toks@) == ts,
            c == nr_class - 1,
            c <= i <= toks@.len(),
            nodes@.len() == i - c,
            forall|k: int| c <= k < i ==> node_ok(#[trigger] ts[k]),
            forall|k: int| 0 <= k < nodes@.len() ==> node_matches(#[trigger] nodes@[k], ts[c + k]),
        decreases toks@.len() - i,
    {
        let parts = split_bytes(toks[i].as_slice(), 58u8);
        proof {
            assert(ts[i as int] == toks@[i as int]@);
        }
        if parts.len() < 2 {
            proof {
                assert(!node_ok(ts[i as int]));
                assert(!sv_line_ok(line@, nr_class as int));
            }
            return Err(SvmError::MalformedSupportVector);
        }
        let index = match parse_usize(parts[0].as_slice()) {
            Some(v) => v,
            None => {
                proof {
                    assert(!node_ok(ts[i as int]));
                    assert(!sv_line_ok(line@, nr_class as int));
                }
                return Err(SvmError::MalformedSupportVector);
            },
        };
        let node = SvNode { index, value: parts[1].clone() };
        proof {
            assert(ts[i as int] == toks@[i as int]@);
            assert(node_matches(node, ts[c + nodes@.len()]));
        }
        let ghost before = nodes@;
        nodes.push(node);
        proof {
            assert forall|k: int| 0 <= k < nodes@.len() implies node_matches(#[trigger] nodes@[k], ts[c + k]) by {
                if k < before.len() {
                    assert(nodes@[k] == before[k]);
                }
            }
        }
        i += 1;
    }
    assert(views(coeffs@) =~= ts.take(c as int));
    Ok(Sv { coeffs, nodes })
}

/// The first line from `i` on that equals `key`, or `ls.len()`.
pub open spec fn line_index_from(ls: Seq<Seq<u8>>, key: Seq<u8>, i: int) -> int
    decreases ls.len() - i,
{
    if i < 0 || i >= ls.len() {
        ls.len() as int
    } else if ls[i] == key {
        i
    } else {
        line_index_from(ls, key, i + 1)
    }
}

/// The header lines of an SVR parameter file: those before the first `SV` line.
pub open spec fn header_lines(text: Seq<u8>) -> Seq<Seq<u8>> {
    let ls = lines_of(text);
    ls.take(line_index_from(ls, sv_tag(), 0))
}

/// The support-vector lines of an SVR parameter file: those after the first
/// `SV` line; none when there is no such line.
pub open spec fn sv_lines(text: Seq<u8>) -> Seq<Seq<u8>> {
    let ls = lines_of(text);
    let n = line_index_from(ls, sv_tag(), 0);
    if n < ls.len() {
        ls.skip(n + 1)
    } else {
        Seq::empty()
    }
}

/// Every header line holds a space.
pub open spec fn headers_ok(hl: Seq<Seq<u8>>) -> bool {
    forall|i: int| 0 <= i < hl.len() ==> (#[trigger] split_header_spec(hl[i])) is Some
}

/// The key and value of each header line.
pub open spec fn headers_of(hl: Seq<Seq<u8>>) -> Seq<(Seq<u8>, Seq<u8>)> {
    Seq::new(hl.len(), |i: int| split_header_spec(hl[i])->Some_0)
}

/// The space-separated numbers of an optional header; none when it is absent.
pub open spec fn optional_numbers(v: Option<Seq<u8>>) -> Seq<Seq<u8>> {
    match v {
        Some(s) => split_spec(s, 32u8),
        None => Seq::empty(),
    }
}

/// The first error met in reading the headers of an SVR parameter file, if
/// any: the header lines, then `svm_type`, `kernel_type` and its parameters,
/// `nr_class` (positive), `total_sv`, and the number of `rho` values when
/// that header is present.
pub open spec fn svm_header_error(text: Seq<u8>) -> Option<SvmError> {
    let hl = header_lines(text);
    let hs = headers_of(hl);
    if !headers_ok(hl) {
        Some(SvmError::MalformedHeader)
    } else if lookup(hs, svm_type_tag()) is None {
        Some(SvmError::MissingHeader)
    } else if svm_type_spec(lookup(hs, svm_type_tag())->Some_0) is None {
        Some(SvmError::UnknownSvmType)
    } else if lookup(hs, kernel_type_tag()) is None {
        Some(SvmError::MissingHeader)
    } else if kernel_error(lookup(hs, kernel_type_tag())->Some_0, hs) is Some {
        kernel_error(lookup(hs, kernel_type_tag())->Some_0, hs)
    } else if lookup(hs, nr_class_tag()) is None {
        Some(SvmError::MissingHeader)
    } else if parse_usize_spec(lookup(hs, nr_class_tag())->Some_0) is None
        || parse_usize_spec(lookup(hs, nr_class_tag())->Some_0) == Some(0usize) {
        Some(SvmError::BadNumber)
    } else if lookup(hs, total_sv_tag()) is None {
        Some(SvmError::MissingHeader)
    } else if parse_usize_spec(lookup(hs, total_sv_tag())->Some_0) is None {
        Some(SvmError::BadNumber)
    } else if lookup(hs, rho_tag()) is Some && split_spec(lookup(hs, rho_tag())->Some_0, 32u8).len()
        != rho_count(parse_usize_spec(lookup(hs, nr_class_tag())->Some_0)->Some_0 as int) {
        Some(SvmError::RhoCountMismatch)
    } else {
        None
    }
}

/// How many decision-function constants a model of `nr_class` classes has:
/// one per pair of classes.
pub open spec fn rho_count(nr_class: int) -> int {
    nr_class * (nr_class - 1) / 2
}

/// The class count that the headers of an SVR parameter file give.
pub open spec fn svm_nr_class(text: Seq<u8>) -> int {
    parse_usize_spec(lookup(headers_of(header_lines(text)), nr_class_tag())->Some_0)->Some_0 as int
}

/// The support-vector count that the headers of an SVR parameter file give.
pub open spec fn svm_total_sv(text: Seq<u8>) -> int {
    parse_usize_spec(lookup(headers_of(header_lines(text)), total_sv_tag())->Some_0)->Some_0 as int
}

/// The first error met in reading an SVR parameter file, if any: that of its
/// headers, then a malformed support-vector line, then a count of
/// support-vector lines other than `total_sv`.
pub open spec fn svm_error(text: Seq<u8>) -> Option<SvmError> {
    let body = sv_lines(text);
    if svm_header_error(text) is Some {
        svm_header_error(text)
    } else if exists|i: int| 0 <= i < body.len() && !sv_line_ok(#[trigger] body[i], svm_nr_class(text)) {
        Some(SvmError::MalformedSupportVector)
    } else if body.len() != svm_total_sv(text) {
        Some(SvmError::SupportVectorCountMismatch)
    } else {
        None
    }
}

/// Reads the support-vector lines `lines[start..]`.
fn parse_sv_lines(lines: &Vec<Vec<u8>>, start: usize, nr_class: usize) -> (r: Result<Vec<Sv>, SvmError>)
    requires
        start <= lines@.len(),
        nr_class >= 1,
    ensures
        (forall|k: int| start <= k < lines@.len() ==> sv_line_ok(#[trigger] lines@[k]@, nr_class as int))
            ==> r is Ok,
        r is Ok ==> {
            let svs = r->Ok_0;
            &&& forall|k: int| start <= k < lines@.len() ==> sv_line_ok(#[trigger] lines@[k]@, nr_class as int)
            &&& svs@.len() == lines@.len() - start
            &&& forall|k: int|
                0 <= k < svs@.len() ==> sv_matches(#[trigger] svs@[k], lines@[start + k]@, nr_class as int)
        },
        r is Err ==> r == Err::<Vec<Sv>, SvmError>(SvmError::MalformedSupportVector) && exists|k: int|
            start <= k < lines@.len() && !sv_line_ok(#[trigger] lines@[k]@, nr_class as int),
{
    let mut svs: Vec<Sv> = Vec::new();
    let mut i: usize = start;
    while i < lines.len()
        invariant
            start <= i <= lines@.len(),
            nr_class >= 1,
            svs@.len() == i - start,
            forall|k: int| start <= k < i ==> sv_line_ok(#[trigger] lines@[k]@, nr_class as int),
            forall|k: int|
                0 <= k < svs@.len() ==> sv_matches(#[trigger] svs@[k], lines@[start + k]@, nr_class as int),
        decreases lines@.len() - i,
    {
        match parse_sv_line(lines[i].as_slice(), nr_class) {
            Ok(sv) => {
                let ghost before = svs@;
                svs.push(sv);
                proof {
                    assert forall|k: int| 0 <= k < svs@.len() implies sv_matches(
                        #[trigger] svs@[k],
                        lines@[start + k]@,
                        nr_class as int,
                    ) by {
                        if k < before.len() {
                            assert(svs@[k] == before[k]);
                        }
                    }
                }
            },
            Err(e) => {
                return Err(e);
            },
        }
        i += 1;
    }
    Ok(svs)
}

/// A support-vector regression model: the machine and kernel kinds, the
/// class count, the support vectors and the constants of the decision
/// function. Real values are kept as the decimal text they were written in.
pub struct VmafSvmModel {
    pub svm_type: SvmType,
    pub kernel_type: KernelType,
    /// Number of classes; 2 in regression.
    pub nr_class: usize,
    /// Number of support vectors.
    pub total_sv: usize,
    /// Constants of the decision functions.
    pub rho: Vec<Vec<u8>>,
    /// Pairwise probability information.
    pub prob_a: Vec<Vec<u8>>,
    /// Pairwise probability information.
    pub prob_b: Vec<Vec<u8>>,
    pub svs: Vec<Sv>,
}

/// `m` is the model that the SVR parameter file `text` writes.
pub open spec fn svm_model_matches(m: VmafSvmModel, text: Seq<u8>) -> bool {
    let hs = headers_of(header_lines(text));
    let body = sv_lines(text);
    &&& svm_type_spec(lookup(hs, svm_type_tag())->Some_0) == Some(m.svm_type)
    &&& kernel_matches(m.kernel_type, lookup(hs, kernel_type_tag())->Some_0, hs)
    &&& parse_usize_spec(lookup(hs, nr_class_tag())->Some_0) == Some(m.nr_class)
    &&& parse_usize_spec(lookup(hs, total_sv_tag())->Some_0) == Some(m.total_sv)
    &&& views(m.rho@) == optional_numbers(lookup(hs, rho_tag()))
    &&& views(m.prob_a@) == optional_numbers(lookup(hs, proba_tag()))
    &&& views(m.prob_b@) == optional_numbers(lookup(hs, probb_tag()))
    &&& m.svs@.len() == body.len()
    &&& forall|i: int| 0 <= i < body.len() ==> sv_matches(#[trigger] m.svs@[i], body[i], m.nr_class as int)
}

/// The space-separated numbers of an optional header.
fn numbers_of(v: Option<&Vec<u8>>) -> (r: Vec<Vec<u8>>)
    ensures
        views(r@) == optional_numbers(
            match v {
                Some(s) => Some(s@),
                None => None,
            },
        ),
{
    match v {
        Some(s) => split_bytes(s.as_slice(), 32u8),
        None => {
            let r: Vec<Vec<u8>> = Vec::new();
            assert(views(r@) =~= Seq::<Seq<u8>>::empty());
            r
        },
    }
}

/// Reads an SVR parameter file: `key value` header lines up to a line `SV`,
/// then one support vector per line.
pub fn parse_svm(model: &[u8]) -> (r: Result<VmafSvmModel, SvmError>)
    ensures
        match svm_error(model@) {
            Some(e) => r == Err::<VmafSvmModel, SvmError>(e),
            None => r is Ok && svm_model_matches(r->Ok_0, model@),
        },
        r is Ok ==> {
            let m = r->Ok_0;
            &&& m.svs@.len() == m.total_sv
            &&& forall|i: int| 0 <= i < m.svs@.len() ==> (#[trigger] m.svs@[i]).coeffs@.len() == m.nr_class - 1
            &&& lookup(headers_of(header_lines(model@)), rho_tag()) is Some ==> m.rho@.len() == rho_count(
                m.nr_class as int,
            )
        },
{
    let lines = text_lines(model);
    let ghost ls = lines_of(model@);
    let sv_marker: [u8; 2] = [83, 86];
    assert(sv_marker@ =~= sv_tag());
    let mut n: usize = 0;
    while n < lines.len() && !bytes_eq(lines[n].as_slice(), &sv_marker)
        invariant
            sv_marker@ == sv_tag(),
            views(lines@) == ls,
            n <= lines@.len(),
            line_index_from(ls, sv_tag(), 0) == line_index_from(ls, sv_tag(), n as int),
        decreases lines@.len() - n,
    {
        proof {
            assert(ls[n as int] == lines@[n as int]@);
        }
        n += 1;
    }
    proof {
        if n < lines@.len() {
            assert(ls[n as int] == lines@[n as int]@);
            assert(sv_marker@ =~= sv_tag());
        }
    }
    let ghost hl = header_lines(model@);
    let mut headers: Vec<(Vec<u8>, Vec<u8>)> = Vec::new();
    let mut i: usize = 0;
    while i < n
        invariant
            views(lines@) == ls,
            ls == lines_of(model@),
            hl == header_lines(model@),
            n <= lines@.len(),
            n == line_index_from(ls, sv_tag(), 0),
            i <= n,
            headers@.len() == i,
            forall|k: int| 0 <= k < i ==> (#[trigger] split_header_spec(hl[k])) is Some,
            pair_views(headers@) == headers_of(hl).take(i as int),
        decreases n - i,
    {
        proof {
            assert(hl[i as int] == lines@[i as int]@);
        }
        match split_header(lines[i].as_slice()) {
            Some(kv) => {
                let ghost before = headers@;
                headers.push(kv);
                proof {
                    assert(pair_views(headers@) =~= headers_of(hl).take(i + 1));
                }
            },
            None => {
                proof {
                    assert(!headers_ok(hl));
                }
                return Err(SvmError::MalformedHeader);
            },
        }
        i += 1;
    }
    proof {
        assert(headers_ok(hl));
        assert(headers_of(hl).take(n as int) =~= headers_of(hl));
    }
    let ghost hs = headers_of(hl);
    let svm_type_key: [u8; 8] = [115, 118, 109, 95, 116, 121, 112, 101];
    let kernel_type_key: [u8; 11] = [107, 101, 114, 110, 101, 108, 95, 116, 121, 112, 101];
    let nr_class_key: [u8; 8] = [110, 114, 95, 99, 108, 97, 115, 115];
    let total_sv_key: [u8; 8] = [116, 111, 116, 97, 108, 95, 115, 118];
    let rho_key: [u8; 3] = [114, 104, 111];
    let prob_a_key: [u8; 5] = [112, 114, 111, 98, 65];
    let prob_b_key: [u8; 5] = [112, 114, 111, 98, 66];
    proof {
        assert(svm_type_key@ =~= svm_type_tag());
        assert(kernel_type_key@ =~= kernel_type_tag());
        assert(nr_class_key@ =~= nr_class_tag());
        assert(total_sv_key@ =~= total_sv_tag());
        assert(rho_key@ =~= rho_tag());
        assert(prob_a_key@ =~= proba_tag());
        assert(prob_b_key@ =~= probb_tag());
    }
    let svm_type = match lookup_header(&headers, &svm_type_key) {
        None => {
            return Err(SvmError::MissingHeader);
        },
        Some(t) => match SvmType::parse(t.as_slice()) {
            None => {
                return Err(SvmError::UnknownSvmType);
            },
            Some(t) => t,
        },
    };
    let kernel_type = match lookup_header(&headers, &kernel_type_key) {
        None => {
            return Err(SvmError::MissingHeader);
        },
        Some(k) => match KernelType::parse(k.as_slice(), &headers) {
            Err(e) => {
                return Err(e);
            },
            Ok(k) => k,
        },
    };
    let nr_class = match lookup_header(&headers, &nr_class_key) {
        None => {
            return Err(SvmError::MissingHeader);
        },
        Some(v) => match parse_usize(v.as_slice()) {
            Some(c) if c > 0 => c,
            _ => {
                return Err(SvmError::BadNumber);
            },
        },
    };
    let total_sv = match lookup_header(&headers, &total_sv_key) {
        None => {
            return Err(SvmError::MissingHeader);
        },
        Some(v) => match parse_usize(v.as_slice()) {
            Some(c) => c,
            None => {
                return Err(SvmError::BadNumber);
            },
        },
    };
    let rho_header = lookup_header(&headers, &rho_key);
    let rho = numbers_of(rho_header);
    if let Some(_) = rho_header {
        proof {
            assert(nr_class * (nr_class - 1) <= 0xffff_ffff_ffff_ffff * 0xffff_ffff_ffff_ffffu128) by (nonlinear_arith)
                requires
                    1 <= nr_class <= 0xffff_ffff_ffff_ffff,
            ;
            assert(0 <= nr_class * (nr_class - 1)) by (nonlinear_arith)
                requires
                    1 <= nr_class,
            ;
        }
        let pairs: u128 = (nr_class as u128) * ((nr_class - 1) as u128) / 2;
        if rho.len() as u128 != pairs {
            return Err(SvmError::RhoCountMismatch);
        }
    }
    let prob_a = numbers_of(lookup_header(&headers, &prob_a_key));
    let prob_b = numbers_of(lookup_header(&headers, &prob_b_key));
    let ghost body = sv_lines(model@);
    let start: usize = if n < lines.len() {
        n + 1
    } else {
        lines.len()
    };
    proof {
        if n < lines@.len() {
            assert(body =~= ls.skip(n + 1));
        } else {
            assert(body =~= Seq::<Seq<u8>>::empty());
        }
        assert(forall|k: int| 0 <= k < body.len() ==> #[trigger] body[k] == lines@[start + k]@);
    }
    let svs = match parse_sv_lines(&lines, start, nr_class) {
        Ok(svs) => svs,
        Err(e) => {
            proof {
                let k = choose|k: int| start <= k < lines@.len() && !sv_line_ok(#[trigger] lines@[k]@, nr_class as int);
                assert(body[k - start] == lines@[k]@);
            }
            return Err(e);
        },
    };
    proof {
        assert forall|k: int| 0 <= k < body.len() implies sv_line_ok(#[trigger] body[k], nr_class as int) by {
            assert(body[k] == lines@[start + k]@);
        }
    }
    if svs.len() != total_sv {
        return Err(SvmError::SupportVectorCountMismatch);
    }
    proof {
        assert forall|k: int| 0 <= k < svs@.len() implies (#[trigger] svs@[k]).coeffs@.len() == nr_class - 1 by {
            assert(sv_line_ok(body[k], nr_class as int));
            assert(sv_matches(svs@[k], body[k], nr_class as int));
            assert(views(svs@[k].coeffs@).len() == svs@[k].coeffs@.len());
        }
    }
    Ok(VmafSvmModel { svm_type, kernel_type, nr_class, total_sv, rho, prob_a, prob_b, svs })
}

/// How a model normalizes its features before the regression.
#[derive(Clone, Copy, Debug, PartialEq, Eq, Structural)]
pub enum NormType {
    /// Features enter the regression as they are (`none`).
    Unscaled,
    /// Each feature is mapped through `slope * x + intercept` (`linear_rescale`).
    LinearRescale,
}

/// `b` with an ASCII capital letter turned to lower case.
pub open spec fn ascii_lower(b: u8) -> u8 {
    if 65 <= b <= 90 {
        (b + 32) as u8
    } else {
        b
    }
}

/// `a` and `b` are equal but for the case of ASCII letters.
pub open spec fn eq_ignore_case(a: Seq<u8>, b: Seq<u8>) -> bool {
    a.len() == b.len() && forall|i: int| 0 <= i < a.len() ==> ascii_lower(#[trigger] a[i]) == ascii_lower(b[i])
}

/// Whether `a` and `b` are equal but for the case of ASCII letters.
fn bytes_eq_ignore_case(a: &[u8], b: &[u8]) -> (r: bool)
    ensures
        r == eq_ignore_case(a@, b@),
{
    if a.len() != b.len() {
        return false;
    }
    let mut i: usize = 0;
    while i < a.len()
        invariant
            a@.len() == b@.len(),
            i <= a@.len(),
            forall|k: int| 0 <= k < i ==> ascii_lower(#[trigger] a@[k]) == ascii_lower(b@[k]),
        decreases a@.len() - i,
    {
        let x = if 65 <= a[i] && a[i] <= 90 {
            a[i] + 32
        } else {
            a[i]
        };
        let y = if 65 <= b[i] && b[i] <= 90 {
            b[i] + 32
        } else {
            b[i]
        };
        if x != y {
            return false;
        }
        i += 1;
    }
    true
}

/// `none`
pub open spec fn none_tag() -> Seq<u8> {
    seq![110u8, 111, 110, 101]
}

/// `linear_rescale`
pub open spec fn linear_rescale_tag() -> Seq<u8> {
    seq![108u8, 105, 110, 101, 97, 114, 95, 114, 101, 115, 99, 97, 108, 101]
}

/// The normalization that `s` names, in any case.
pub open spec fn norm_type_spec(s: Seq<u8>) -> Option<NormType> {
    if eq_ignore_case(s, none_tag()) {
        Some(NormType::Unscaled)
    } else if eq_ignore_case(s, linear_rescale_tag()) {
        Some(NormType::LinearRescale)
    } else {
        Option::None
    }
}

impl NormType {
    /// Reads a normalization from its name, `none` or `linear_rescale`, in any case.
    pub fn parse(s: &[u8]) -> (r: Option<NormType>)
        ensures
            r == norm_type_spec(s@),
    {
        let none: [u8; 4] = [110, 111, 110, 101];
        let linear_rescale: [u8; 14] = [108, 105, 110, 101, 97, 114, 95, 114, 101, 115, 99, 97, 108, 101];
        assert(none@ =~= none_tag());
        assert(linear_rescale@ =~= linear_rescale_tag());
        if bytes_eq_ignore_case(s, &none) {
            Some(NormType::Unscaled)
        } else if bytes_eq_ignore_case(s, &linear_rescale) {
            Some(NormType::LinearRescale)
        } else {
            Option::None
        }
    }
}

/// Why a model descriptor is unusable.
#[derive(Clone, Copy, Debug, PartialEq, Eq, Structural)]
pub enum ModelError {
    /// The model is not a nu-SVR model.
    UnknownModelType,
    /// Linear rescaling without slopes.
    MissingSlopes,
    /// Linear rescaling without intercepts.
    MissingIntercepts,
    /// Slopes or intercepts not one per feature.
    RescaleLengthMismatch,
}

/// `LIBSVMNUSVR`, the model type of a nu-SVR model.
pub open spec fn nu_svr_model_tag() -> Seq<u8> {
    seq![76u8, 73, 66, 83, 86, 77, 78, 85, 83, 86, 82]
}

/// What a model descriptor's consistency depends on: its model type, how
/// many features it names, its normalization, and how many slopes and
/// intercepts it holds, if any.
pub struct DescriptorShape {
    pub model_type: Vec<u8>,
    pub feature_count: usize,
    pub norm_type: NormType,
    pub slopes: Option<usize>,
    pub intercepts: Option<usize>,
}

/// The first inconsistency of a descriptor, if any: a model type other than
/// nu-SVR; then, under linear rescaling, absent slopes, absent intercepts,
/// or either not one per feature.
pub open spec fn descriptor_error(d: DescriptorShape) -> Option<ModelError> {
    if d.model_type@ != nu_svr_model_tag() {
        Some(ModelError::UnknownModelType)
    } else if d.norm_type == NormType::LinearRescale {
        if d.slopes is None {
            Some(ModelError::MissingSlopes)
        } else if d.intercepts is None {
            Some(ModelError::MissingIntercepts)
        } else if d.slopes->Some_0 != d.feature_count || d.intercepts->Some_0 != d.feature_count {
            Some(ModelError::RescaleLengthMismatch)
        } else {
            Option::None
        }
    } else {
        Option::None
    }
}

/// Checks that a model descriptor can be used.
pub fn check_model(d: &DescriptorShape) -> (r: Result<(), ModelError>)
    ensures
        match descriptor_error(*d) {
            Some(e) => r == Err::<(), ModelError>(e),
            None => r is Ok,
        },
{
    let nu_svr: [u8; 11] = [76, 73, 66, 83, 86, 77, 78, 85, 83, 86, 82];
    assert(nu_svr@ =~= nu_svr_model_tag());
    if !bytes_eq(d.model_type.as_slice(), &nu_svr) {
        return Err(ModelError::UnknownModelType);
    }
    if d.norm_type == NormType::LinearRescale {
        match (d.slopes, d.intercepts) {
            (Option::None, _) => Err(ModelError::MissingSlopes),
            (_, Option::None) => Err(ModelError::MissingIntercepts),
            (Some(s), Some(i)) => {
                if s != d.feature_count || i != d.feature_count {
                    Err(ModelError::RescaleLengthMismatch)
                } else {
                    Ok(())
                }
            },
        }
    } else {
        Ok(())
    }
}

/// Which of the two bundled model pairs applies to a frame.
#[derive(Clone, Copy, Debug, PartialEq, Eq, Structural)]
pub enum ModelVariant {
    /// Frames narrower than [`HIGH_RESOLUTION_MIN_WIDTH`].
    Default,
    /// Frames at least [`HIGH_RESOLUTION_MIN_WIDTH`] wide.
    HighResolution,
}

/// Frame width from which the high-resolution models apply: a cut between
/// 1080p and 4K.
pub const HIGH_RESOLUTION_MIN_WIDTH: usize = 2880;

/// The model pair for frames `width` samples wide.
pub fn select_model_variant(width: usize) -> (r: ModelVariant)
    ensures
        r == if width >= HIGH_RESOLUTION_MIN_WIDTH {
            ModelVariant::HighResolution
        } else {
            ModelVariant::Default
        },
{
    if width >= HIGH_RESOLUTION_MIN_WIDTH {
        ModelVariant::HighResolution
    } else {
        ModelVariant::Default
    }
}

} // verus!
