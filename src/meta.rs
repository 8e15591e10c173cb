//! The contract metadata that is written into a module: an environment
//! metadata section and a contract specification section.
use vstd::prelude::*;
use vstd::string::StringSliceAdditionalSpecFns;
use crate::section::{custom_section, lemma_section_len, write_custom_section};
use crate::xdr::{
    encode_env_meta, encode_spec, lemma_single_env_meta, lemma_single_function, lemma_spec_stream_len, spec_stream_error,
    within_limits, xdr_env_meta, xdr_env_meta_stream, xdr_function, xdr_spec_stream, EncodeError, EnvMetaEntry,
    FunctionInput, FunctionInputView, FunctionSpec, FunctionSpecView, SpecType,
    MAX_FUNCTION_XDR_LEN,
};

verus! {

broadcast use vstd::string::is_ascii_spec_bytes;

/// Name of the section that holds the environment metadata.
pub const ENV_META_SECTION: &'static str = "contractenvmetav0";

/// Name of the section that holds the contract specification.
pub const SPEC_SECTION: &'static str = "contractspecv0";

/// Protocol revision of the packed interface version written by default.
pub const CURRENT_PROTOCOL: u32 = 21;

/// Room that a caller leaves after the module for each entry of a section.
pub const SECTION_ROOM: usize = 0x10000;

/// The bytes of an ASCII text, one for each character.
pub open spec fn ascii_bytes(s: Seq<char>) -> Seq<u8> {
    s.map_values(|c: char| c as u8)
}

pub open spec fn env_meta_name() -> Seq<u8> {
    ascii_bytes("contractenvmetav0"@)
}

pub open spec fn spec_name() -> Seq<u8> {
    ascii_bytes("contractspecv0"@)
}

proof fn lemma_section_names()
    ensures
        ENV_META_SECTION.spec_bytes() == env_meta_name(),
        SPEC_SECTION.spec_bytes() == spec_name(),
        env_meta_name().len() == 17,
        spec_name().len() == 14,
{
    reveal_strlit("contractenvmetav0");
    reveal_strlit("contractspecv0");
    assert(vstd::string::is_ascii(ENV_META_SECTION));
    assert(vstd::string::is_ascii(SPEC_SECTION));
    assert(ENV_META_SECTION.spec_bytes() =~= env_meta_name());
    assert(SPEC_SECTION.spec_bytes() =~= spec_name());
}

/// An interface version that packs the protocol revision into the high 32
/// bits and the pre-release number into the low 32 bits.
pub fn packed_interface_version(protocol: u32, pre_release: u32) -> (r: u64)
    ensures
        r == protocol as nat * 0x1_0000_0000 + pre_release as nat,
{
    assert(protocol as nat * 0x1_0000_0000 + pre_release as nat <= u64::MAX) by (nonlinear_arith)
        requires
            protocol <= u32::MAX,
            pre_release <= u32::MAX,
    ;
    protocol as u64 * 0x1_0000_0000 + pre_release as u64
}

/// The payload of the environment metadata section: the one entry that
/// states the interface version.
pub open spec fn env_meta_payload(interface_version: u64) -> Seq<u8> {
    xdr_env_meta_stream(seq![EnvMetaEntry::InterfaceVersion(interface_version)])
}

/// Appends the environment metadata section, which states
/// `interface_version`, to `wasm`.
pub fn write_env_meta(wasm: &mut Vec<u8>, interface_version: u64)
    requires
        old(wasm)@.len() + SECTION_ROOM <= isize::MAX,
    ensures
        final(wasm)@ == old(wasm)@ + custom_section(env_meta_name(), env_meta_payload(interface_version)),
{
    let entries = [EnvMetaEntry::InterfaceVersion(interface_version)];
    let payload = encode_env_meta(&entries);
    proof {
        assert(entries@ =~= seq![EnvMetaEntry::InterfaceVersion(interface_version)]);
        lemma_single_env_meta(EnvMetaEntry::InterfaceVersion(interface_version));
        assert(payload@.len() == 12);
        lemma_section_names();
        lemma_section_len(env_meta_name(), payload@);
    }
    write_custom_section(wasm, ENV_META_SECTION, payload.as_slice());
}

/// Appends the contract specification section holding `entries` in order to
/// `wasm`. Where an entry breaks a bound, the error of the first such entry is
/// returned and `wasm` is left as it was.
pub fn write_spec_entries(wasm: &mut Vec<u8>, entries: &[FunctionSpec]) -> (r: Result<(), EncodeError>)
    requires
        old(wasm)@.len() + SECTION_ROOM * (entries@.len() + 1) <= isize::MAX,
    ensures
        ({
            let s = entries@.map_values(|f: FunctionSpec| f@);
            match spec_stream_error(s) {
                Some(e) => r == Err::<(), EncodeError>(e) && final(wasm)@ == old(wasm)@,
                None => r is Ok && final(wasm)@ == old(wasm)@ + custom_section(
                    spec_name(),
                    xdr_spec_stream(s),
                ),
            }
        }),
{
    let payload = match encode_spec(entries) {
        Ok(p) => p,
        Err(e) => return Err(e),
    };
    proof {
        let s = entries@.map_values(|f: FunctionSpec| f@);
        lemma_spec_stream_len(s);
        lemma_section_names();
        lemma_section_len(spec_name(), payload@);
        assert(MAX_FUNCTION_XDR_LEN * s.len() + 64 <= SECTION_ROOM * (entries@.len() + 1))
            by (nonlinear_arith)
            requires
                s.len() == entries@.len(),
        ;
    }
    write_custom_section(wasm, SPEC_SECTION, payload.as_slice());
    Ok(())
}

/// A parameter with an empty doc string and a one-letter name.
pub open spec fn letter_input(letter: char, t: SpecType) -> FunctionInputView {
    FunctionInputView { doc: seq![], name: seq![letter as u8], type_: t }
}

/// The function that the specification section describes:
/// `add(a: bool, b: t, c: t) -> t`, with empty doc strings.
pub open spec fn add_function_view(t: SpecType) -> FunctionSpecView {
    FunctionSpecView {
        doc: seq![],
        name: seq!['a' as u8, 'd' as u8, 'd' as u8],
        inputs: seq![letter_input('a', SpecType::Bool), letter_input('b', t), letter_input('c', t)],
        outputs: seq![t],
    }
}

fn letter_parameter(letter: u8, type_: SpecType) -> (r: FunctionInput)
    ensures
        r@ == (FunctionInputView { doc: seq![], name: seq![letter], type_ }),
{
    let r = FunctionInput { doc: Vec::new(), name: vec![letter], type_ };
    assert(r@.doc =~= seq![]);
    assert(r@.name =~= seq![letter]);
    r
}

/// The record of `add(a: bool, b: int_type, c: int_type) -> int_type`.
pub fn add_function(int_type: SpecType) -> (r: FunctionSpec)
    ensures
        r@ == add_function_view(int_type),
        within_limits(r@),
{
    let inputs = vec![
        letter_parameter('a' as u8, SpecType::Bool),
        letter_parameter('b' as u8, int_type),
        letter_parameter('c' as u8, int_type),
    ];
    let r = FunctionSpec { doc: Vec::new(), name: vec!['a' as u8, 'd' as u8, 'd' as u8], inputs, outputs: vec![int_type] };
    let ghost v = add_function_view(int_type);
    assert(r@.doc =~= v.doc);
    assert(r@.name =~= v.name);
    assert(r@.inputs =~= v.inputs);
    assert(r@.outputs =~= v.outputs);
    assert forall|k: int| 0 <= k < v.inputs.len() implies #[trigger] crate::xdr::input_strings_fit(
        v.inputs[k],
    ) by {}
    r
}

/// Appends the contract specification section, which describes
/// `add(a: bool, b: int_type, c: int_type) -> int_type`, to `wasm`.
pub fn write_spec(wasm: &mut Vec<u8>, int_type: SpecType)
    requires
        old(wasm)@.len() + 2 * SECTION_ROOM <= isize::MAX,
    ensures
        final(wasm)@ == old(wasm)@ + custom_section(spec_name(), xdr_function(add_function_view(int_type))),
{
    let f = add_function(int_type);
    let entries = [f];
    proof {
        assert(entries@.map_values(|f: FunctionSpec| f@) =~= seq![add_function_view(int_type)]);
        lemma_single_function(add_function_view(int_type));
    }
    let _ = write_spec_entries(wasm, &entries);
}

/// Appends to `wasm` the environment metadata section stating
/// `interface_version`, then the specification section describing
/// `add(a: bool, b: int_type, c: int_type) -> int_type`.
pub fn write_contract_meta(wasm: &mut Vec<u8>, interface_version: u64, int_type: SpecType)
    requires
        old(wasm)@.len() + 3 * SECTION_ROOM <= isize::MAX,
    ensures
        final(wasm)@ == old(wasm)@ + custom_section(env_meta_name(), env_meta_payload(interface_version))
            + custom_section(spec_name(), xdr_function(add_function_view(int_type))),
{
    proof {
        lemma_single_env_meta(EnvMetaEntry::InterfaceVersion(interface_version));
        lemma_section_names();
        lemma_section_len(env_meta_name(), env_meta_payload(interface_version));
    }
    write_env_meta(wasm, interface_version);
    write_spec(wasm, int_type);
    assert(final(wasm)@ =~= old(wasm)@ + custom_section(env_meta_name(), env_meta_payload(interface_version))
        + custom_section(spec_name(), xdr_function(add_function_view(int_type))));
}

} // verus!
