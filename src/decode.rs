//! Reading the XDR records back, stated as spec functions, and the proof that
//! reading gives back what was written.
use vstd::prelude::*;
use crate::meta::{add_function_view, env_meta_name, env_meta_payload, spec_name};
use crate::section::{custom_section, lemma_section_round_trip, read_custom_section};
use crate::xdr::{
    be32, padding, type_tag, xdr_bytes, xdr_env_meta, xdr_function, xdr_input, xdr_inputs,
    xdr_spec_stream,
    xdr_type, xdr_types, within_limits, input_strings_fit, EnvMetaEntry, FunctionInputView,
    FunctionSpecView, SpecType,
};

verus! {

/// The big-endian number in the four bytes of `b` from `at`.
#[verifier::opaque]
pub open spec fn read_u32(b: Seq<u8>, at: int) -> nat {
    b[at] as nat * 0x100_0000 + b[at + 1] as nat * 0x1_0000 + b[at + 2] as nat * 0x100 + b[at + 3] as nat
}

proof fn lemma_read_u32(p: Seq<u8>, n: nat, q: Seq<u8>)
    requires
        n < 0x1_0000_0000,
    ensures
        read_u32(p + be32(n) + q, p.len() as int) == n,
{
    reveal(read_u32);
    let b = p + be32(n) + q;
    let at = p.len() as int;
    assert(b[at] == be32(n)[0]);
    assert(b[at + 1] == be32(n)[1]);
    assert(b[at + 2] == be32(n)[2]);
    assert(b[at + 3] == be32(n)[3]);
    assert(n / 0x100_0000 % 0x100 == n / 0x100_0000);
    assert(n == (n / 0x100_0000) * 0x100_0000 + (n / 0x1_0000 % 0x100) * 0x1_0000 + (n / 0x100 % 0x100) * 0x100 + n % 0x100)
        by (nonlinear_arith)
        requires
            n < 0x1_0000_0000,
    ;
}

/// A variable-length byte string at `at`: its bytes, and where the next item
/// starts past the padding.
pub open spec fn read_bytes(b: Seq<u8>, at: int) -> (Seq<u8>, int) {
    let len = read_u32(b, at);
    (b.subrange(at + 4, at + 4 + len), at + 4 + len + (4 - len % 4) % 4)
}

/// The type whose tag is `n`.
pub open spec fn type_of_tag(n: nat) -> Option<SpecType> {
    if n == 0 {
        Some(SpecType::Val)
    } else if n == 1 {
        Some(SpecType::Bool)
    } else if n == 2 {
        Some(SpecType::Void)
    } else if n == 4 {
        Some(SpecType::U32)
    } else if n == 5 {
        Some(SpecType::I32)
    } else if n == 6 {
        Some(SpecType::U64)
    } else if n == 7 {
        Some(SpecType::I64)
    } else if n == 10 {
        Some(SpecType::U128)
    } else if n == 11 {
        Some(SpecType::I128)
    } else if n == 12 {
        Some(SpecType::U256)
    } else if n == 13 {
        Some(SpecType::I256)
    } else if n == 14 {
        Some(SpecType::Bytes)
    } else if n == 19 {
        Some(SpecType::Address)
    } else {
        None
    }
}

/// A parameter at `at`, and where the next item starts. An unknown type tag
/// reads as `Val`; it never occurs in what the encoder writes.
pub open spec fn read_input(b: Seq<u8>, at: int) -> (FunctionInputView, int) {
    let (doc, a1) = read_bytes(b, at);
    let (name, a2) = read_bytes(b, a1);
    let type_ = match type_of_tag(read_u32(b, a2)) {
        Some(t) => t,
        None => SpecType::Val,
    };
    (FunctionInputView { doc, name, type_ }, a2 + 4)
}

/// `count` parameters from `at`, and where the next item starts.
pub open spec fn read_inputs(b: Seq<u8>, at: int, count: nat) -> (Seq<FunctionInputView>, int)
    decreases count,
{
    if count == 0 {
        (seq![], at)
    } else {
        let (i, a1) = read_input(b, at);
        let (rest, a2) = read_inputs(b, a1, (count - 1) as nat);
        (seq![i] + rest, a2)
    }
}

/// `count` types from `at`, and where the next item starts.
pub open spec fn read_types(b: Seq<u8>, at: int, count: nat) -> (Seq<SpecType>, int)
    decreases count,
{
    if count == 0 {
        (seq![], at)
    } else {
        let t = match type_of_tag(read_u32(b, at)) {
            Some(t) => t,
            None => SpecType::Val,
        };
        let (rest, a2) = read_types(b, at + 4, (count - 1) as nat);
        (seq![t] + rest, a2)
    }
}

/// The function entry that `b` holds, if `b` is exactly one entry of kind
/// function.
#[verifier::opaque]
pub open spec fn read_function(b: Seq<u8>) -> Option<FunctionSpecView> {
    let (doc, a1) = read_bytes(b, 4);
    let (name, a2) = read_bytes(b, a1);
    let (inputs, a3) = read_inputs(b, a2 + 4, read_u32(b, a2));
    let (outputs, a4) = read_types(b, a3 + 4, read_u32(b, a3));
    if b.len() >= 4 && read_u32(b, 0) == 0 && a4 == b.len() {
        Some(FunctionSpecView { doc, name, inputs, outputs })
    } else {
        None
    }
}

/// The environment metadata entry that `b` holds, if `b` is exactly one
/// entry of kind interface version.
pub open spec fn read_env_meta(b: Seq<u8>) -> Option<EnvMetaEntry> {
    if b.len() == 12 && read_u32(b, 0) == 0 {
        Some(EnvMetaEntry::InterfaceVersion((read_u32(b, 4) * 0x1_0000_0000 + read_u32(b, 8)) as u64))
    } else {
        None
    }
}

proof fn lemma_read_bytes(p: Seq<u8>, d: Seq<u8>, q: Seq<u8>)
    requires
        d.len() < 0x1_0000_0000,
    ensures
        read_bytes(p + xdr_bytes(d) + q, p.len() as int) == (d, (p.len() + xdr_bytes(d).len()) as int),
{
    let b = p + xdr_bytes(d) + q;
    assert(b =~= p + be32(d.len()) + (d + padding(d.len()) + q));
    lemma_read_u32(p, d.len(), d + padding(d.len()) + q);
    assert(b.subrange(p.len() + 4 as int, p.len() + 4 + d.len() as int) =~= d);
}

proof fn lemma_read_type(p: Seq<u8>, t: SpecType, q: Seq<u8>)
    ensures
        read_u32(p + xdr_type(t) + q, p.len() as int) == type_tag(t),
        type_of_tag(type_tag(t)) == Some(t),
{
    lemma_read_u32(p, type_tag(t), q);
}

proof fn lemma_read_input(p: Seq<u8>, i: FunctionInputView, q: Seq<u8>)
    requires
        input_strings_fit(i),
    ensures
        read_input(p + xdr_input(i) + q, p.len() as int) == (i, (p.len() + xdr_input(i).len()) as int),
{
    reveal(read_input);
    reveal(xdr_input);
    let b = p + xdr_input(i) + q;
    let p1 = p + xdr_bytes(i.doc);
    let p2 = p1 + xdr_bytes(i.name);
    assert(b =~= p + xdr_bytes(i.doc) + (xdr_bytes(i.name) + xdr_type(i.type_) + q));
    lemma_read_bytes(p, i.doc, xdr_bytes(i.name) + xdr_type(i.type_) + q);
    assert(b =~= p1 + xdr_bytes(i.name) + (xdr_type(i.type_) + q));
    lemma_read_bytes(p1, i.name, xdr_type(i.type_) + q);
    assert(b =~= p2 + xdr_type(i.type_) + q);
    lemma_read_type(p2, i.type_, q);
}

proof fn lemma_inputs_front(s: Seq<FunctionInputView>)
    requires
        s.len() > 0,
    ensures
        xdr_inputs(s) == xdr_input(s[0]) + xdr_inputs(s.drop_first()),
    decreases s.len(),
{
    if s.len() == 1 {
        assert(s.drop_last() =~= Seq::<FunctionInputView>::empty());
        assert(s.drop_first() =~= Seq::<FunctionInputView>::empty());
        assert(xdr_inputs(s) =~= xdr_input(s[0]) + xdr_inputs(s.drop_first()));
    } else {
        lemma_inputs_front(s.drop_last());
        assert(s.drop_first().drop_last() =~= s.drop_last().drop_first());
        assert(xdr_inputs(s) =~= xdr_input(s[0]) + xdr_inputs(s.drop_first()));
    }
}

proof fn lemma_types_front(s: Seq<SpecType>)
    requires
        s.len() > 0,
    ensures
        xdr_types(s) == xdr_type(s[0]) + xdr_types(s.drop_first()),
    decreases s.len(),
{
    if s.len() == 1 {
        assert(s.drop_last() =~= Seq::<SpecType>::empty());
        assert(s.drop_first() =~= Seq::<SpecType>::empty());
        assert(xdr_types(s) =~= xdr_type(s[0]) + xdr_types(s.drop_first()));
    } else {
        lemma_types_front(s.drop_last());
        assert(s.drop_first().drop_last() =~= s.drop_last().drop_first());
        assert(xdr_types(s) =~= xdr_type(s[0]) + xdr_types(s.drop_first()));
    }
}

proof fn lemma_regroup(p: Seq<u8>, x: Seq<u8>, y: Seq<u8>, q: Seq<u8>)
    ensures
        p + (x + y) + q == p + x + (y + q),
        p + (x + y) + q == (p + x) + y + q,
{
    assert(p + (x + y) + q =~= p + x + (y + q));
    assert(p + (x + y) + q =~= (p + x) + y + q);
}

proof fn lemma_read_inputs(p: Seq<u8>, s: Seq<FunctionInputView>, q: Seq<u8>)
    requires
        forall|k: int| 0 <= k < s.len() ==> #[trigger] input_strings_fit(s[k]),
    ensures
        read_inputs(p + xdr_inputs(s) + q, p.len() as int, s.len()) == (s, (p.len() + xdr_inputs(s).len()) as int),
    decreases s.len(),
{
    let b = p + xdr_inputs(s) + q;
    if s.len() == 0 {
        assert(read_inputs(b, p.len() as int, s.len()).0 =~= s);
    } else {
        lemma_inputs_front(s);
        let rest = s.drop_first();
        let x = xdr_input(s[0]);
        let y = xdr_inputs(rest);
        assert(input_strings_fit(s[0]));
        lemma_regroup(p, x, y, q);
        lemma_read_input(p, s[0], y + q);
        let p1 = p + x;
        assert forall|k: int| 0 <= k < rest.len() implies #[trigger] input_strings_fit(rest[k]) by {
            assert(input_strings_fit(s[k + 1]));
        }
        lemma_read_inputs(p1, rest, q);
        assert(seq![s[0]] + rest =~= s);
    }
}

proof fn lemma_read_types(p: Seq<u8>, s: Seq<SpecType>, q: Seq<u8>)
    ensures
        read_types(p + xdr_types(s) + q, p.len() as int, s.len()) == (s, (p.len() + xdr_types(s).len()) as int),
    decreases s.len(),
{
    let b = p + xdr_types(s) + q;
    if s.len() == 0 {
        assert(read_types(b, p.len() as int, s.len()).0 =~= s);
    } else {
        lemma_types_front(s);
        let rest = s.drop_first();
        assert(b =~= p + xdr_type(s[0]) + (xdr_types(rest) + q));
        lemma_read_type(p, s[0], xdr_types(rest) + q);
        let p1 = p + xdr_type(s[0]);
        assert(b =~= p1 + xdr_types(rest) + q);
        lemma_read_types(p1, rest, q);
        assert(seq![s[0]] + rest =~= s);
    }
}

/// Reading back the bytes of an environment metadata entry gives the entry.
pub proof fn lemma_env_meta_round_trip(e: EnvMetaEntry)
    ensures
        read_env_meta(xdr_env_meta(e)) == Some(e),
{
    let EnvMetaEntry::InterfaceVersion(v) = e;
    let hi = v as nat / 0x1_0000_0000;
    let lo = v as nat % 0x1_0000_0000;
    let b = xdr_env_meta(e);
    assert(b =~= Seq::<u8>::empty() + be32(0) + (be32(hi) + be32(lo)));
    lemma_read_u32(Seq::<u8>::empty(), 0, be32(hi) + be32(lo));
    assert(b =~= be32(0) + be32(hi) + be32(lo));
    lemma_read_u32(be32(0), hi, be32(lo));
    assert(b =~= (be32(0) + be32(hi)) + be32(lo) + Seq::<u8>::empty());
    lemma_read_u32(be32(0) + be32(hi), lo, Seq::<u8>::empty());
}

proof fn lemma_assoc(a: Seq<u8>, b: Seq<u8>, c: Seq<u8>)
    ensures
        (a + b) + c == a + (b + c),
{
    assert((a + b) + c =~= a + (b + c));
}

/// Reading back the bytes of a function entry within the bounds gives the
/// entry: its doc, its name, its parameters with their names and types in
/// order, and its return types in order.
pub proof fn lemma_function_round_trip(f: FunctionSpecView)
    requires
        within_limits(f),
    ensures
        read_function(xdr_function(f)) == Some(f),
{
    let b = xdr_function(f);
    let e = Seq::<u8>::empty();
    let ni = f.inputs.len();
    let no = f.outputs.len();
    let (x0, x1, x2, x3) = (be32(0), xdr_bytes(f.doc), xdr_bytes(f.name), be32(ni));
    let (x4, x5, x6) = (xdr_inputs(f.inputs), be32(no), xdr_types(f.outputs));
    let t5 = x5 + x6;
    let t4 = x4 + t5;
    let t3 = x3 + t4;
    let t2 = x2 + t3;
    let t1 = x1 + t2;
    let p1 = x0;
    let p2 = p1 + x1;
    let p3 = p2 + x2;
    let p4 = p3 + x3;
    let p5 = p4 + x4;
    let p6 = p5 + x5;
    assert(b == x0 + x1 + x2 + x3 + x4 + x5 + x6);
    lemma_assoc(p5, x5, x6);
    lemma_assoc(p4, x4, t5);
    lemma_assoc(p3, x3, t4);
    lemma_assoc(p2, x2, t3);
    lemma_assoc(p1, x1, t2);
    assert(b == p1 + t1);
    assert(b == e + x0 + t1);
    lemma_read_u32(e, 0, t1);
    assert(b == p1 + x1 + t2);
    lemma_read_bytes(p1, f.doc, t2);
    assert(b == p2 + x2 + t3);
    lemma_read_bytes(p2, f.name, t3);
    assert(b == p3 + x3 + t4);
    lemma_read_u32(p3, ni, t4);
    assert forall|k: int| 0 <= k < f.inputs.len() implies #[trigger] input_strings_fit(f.inputs[k]) by {}
    assert(b == p4 + x4 + t5);
    lemma_read_inputs(p4, f.inputs, t5);
    assert(b == p5 + t5);
    assert(b == p5 + x5 + x6);
    lemma_read_u32(p5, no, x6);
    assert(p6 + x6 + e =~= p6 + x6);
    assert(b == p6 + x6 + e);
    lemma_read_types(p6, f.outputs, e);
    assert(read_u32(b, 0) == 0);
    assert(read_bytes(b, 4) == (f.doc, p2.len() as int));
    assert(read_bytes(b, p2.len() as int) == (f.name, p3.len() as int));
    assert(read_u32(b, p3.len() as int) == ni);
    assert(read_inputs(b, p4.len() as int, ni) == (f.inputs, p5.len() as int));
    assert(read_u32(b, p5.len() as int) == no);
    assert(read_types(b, p6.len() as int, no) == (f.outputs, b.len() as int));
    reveal(read_function);
}

/// A specification section written for one record within the bounds reads
/// back as that section, and its payload as that record.
pub proof fn lemma_spec_section_round_trip(before: Seq<u8>, f: FunctionSpecView)
    requires
        within_limits(f),
    ensures
        read_custom_section(
            before + custom_section(spec_name(), xdr_spec_stream(seq![f])),
            before.len() as int,
        ) matches Some((name, payload)) && name == spec_name() && read_function(payload) == Some(f),
{
    crate::xdr::lemma_single_function(f);
    lemma_function_round_trip(f);
    let m = before + custom_section(spec_name(), xdr_function(f));
    lemma_section_round_trip(before, spec_name(), xdr_function(f), Seq::<u8>::empty());
    assert(m + Seq::<u8>::empty() =~= m);
}

/// The module that writing the contract metadata makes from `before` ends in
/// exactly two custom sections: first the environment metadata section, whose
/// payload reads back as the interface version, then the specification
/// section, whose payload reads back as `add(a: bool, b: t, c: t) -> t`.
pub proof fn lemma_contract_meta_round_trip(before: Seq<u8>, interface_version: u64, t: SpecType)
    ensures
        ({
            let env = custom_section(env_meta_name(), env_meta_payload(interface_version));
            let spec = custom_section(spec_name(), xdr_function(add_function_view(t)));
            let m = before + env + spec;
            &&& m.len() == before.len() + env.len() + spec.len()
            &&& read_custom_section(m, before.len() as int) matches Some((name, payload))
                && name == env_meta_name()
                && read_env_meta(payload) == Some(EnvMetaEntry::InterfaceVersion(interface_version))
            &&& read_custom_section(m, (before.len() + env.len()) as int) matches Some((name, payload))
                && name == spec_name() && read_function(payload) == Some(add_function_view(t))
        }),
{
    let e = EnvMetaEntry::InterfaceVersion(interface_version);
    let f = add_function_view(t);
    let env = custom_section(env_meta_name(), env_meta_payload(interface_version));
    let spec = custom_section(spec_name(), xdr_function(f));
    crate::xdr::lemma_single_env_meta(e);
    lemma_env_meta_round_trip(e);
    assert forall|k: int| 0 <= k < f.inputs.len() implies #[trigger] input_strings_fit(f.inputs[k]) by {}
    assert(within_limits(f));
    lemma_function_round_trip(f);
    lemma_section_round_trip(before, env_meta_name(), env_meta_payload(interface_version), spec);
    lemma_section_round_trip(before + env, spec_name(), xdr_function(f), Seq::<u8>::empty());
    assert(before + env + spec + Seq::<u8>::empty() =~= before + env + spec);
}

} // verus!
