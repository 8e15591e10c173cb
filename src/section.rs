//! Custom sections of the WebAssembly binary format.
use vstd::prelude::*;
use vstd::string::StringSliceAdditionalSpecFns;

verus! {

/// Unsigned LEB128 encoding of `n`, as the WebAssembly binary format writes
/// every length: seven bits per byte, least significant group first, the high
/// bit set on every byte but the last.
pub open spec fn leb128(n: nat) -> Seq<u8>
    decreases n,
{
    if n < 128 {
        seq![n as u8]
    } else {
        seq![(n % 128 + 128) as u8] + leb128(n / 128)
    }
}

/// Content of a custom section: the length-prefixed name, then the payload.
pub open spec fn section_content(name: Seq<u8>, payload: Seq<u8>) -> Seq<u8> {
    leb128(name.len()) + name + payload
}

/// A whole custom section: id 0, the content's length, the content.
pub open spec fn custom_section(name: Seq<u8>, payload: Seq<u8>) -> Seq<u8> {
    let content = section_content(name, payload);
    seq![0u8] + leb128(content.len()) + content
}

/// An LEB128 encoding is never longer than the value plus one, and at least
/// one byte long.
pub proof fn lemma_leb128_len(n: nat)
    ensures
        1 <= leb128(n).len() <= n + 1,
    decreases n,
{
    if n >= 128 {
        lemma_leb128_len(n / 128);
    }
}

/// A custom section is at most twice its content plus two bytes long.
pub proof fn lemma_section_len(name: Seq<u8>, payload: Seq<u8>)
    ensures
        custom_section(name, payload).len() <= 2 * section_content(name, payload).len() + 2,
        section_content(name, payload).len() <= 2 * name.len() + 1 + payload.len(),
{
    lemma_leb128_len(name.len());
    lemma_leb128_len(section_content(name, payload).len());
}

/// The unsigned LEB128 number that starts at `at`, and where the next item
/// starts.
pub open spec fn read_leb128(b: Seq<u8>, at: int) -> (nat, int)
    decreases b.len() - at,
{
    if at < 0 || at >= b.len() {
        (0, at)
    } else if b[at] < 128 {
        (b[at] as nat, at + 1)
    } else {
        let r = read_leb128(b, at + 1);
        ((b[at] - 128) as nat + 128 * r.0, r.1)
    }
}

/// The name and the payload of the custom section that starts at `at`, if a
/// custom section starts there.
pub open spec fn read_custom_section(b: Seq<u8>, at: int) -> Option<(Seq<u8>, Seq<u8>)> {
    let (size, a1) = read_leb128(b, at + 1);
    let (name_len, a2) = read_leb128(b, a1);
    if 0 <= at < b.len() && b[at] == 0 && a2 + name_len <= a1 + size <= b.len() {
        Some((b.subrange(a2, a2 + name_len), b.subrange(a2 + name_len, a1 + size)))
    } else {
        None
    }
}

proof fn lemma_read_leb128(p: Seq<u8>, n: nat, q: Seq<u8>)
    ensures
        read_leb128(p + leb128(n) + q, p.len() as int) == (n, (p.len() + leb128(n).len()) as int),
    decreases n,
{
    let b = p + leb128(n) + q;
    if n < 128 {
        assert(b[p.len() as int] == n as u8);
    } else {
        let byte = (n % 128 + 128) as u8;
        let p1 = p + seq![byte];
        assert(b =~= p1 + leb128(n / 128) + q);
        assert(b[p.len() as int] == byte);
        lemma_read_leb128(p1, n / 128, q);
    }
}

/// Reading the custom section that was appended after `before` gives back
/// its name and its payload, whatever comes after it.
pub proof fn lemma_section_round_trip(before: Seq<u8>, name: Seq<u8>, payload: Seq<u8>, after: Seq<u8>)
    ensures
        read_custom_section(before + custom_section(name, payload) + after, before.len() as int)
            == Some((name, payload)),
{
    let content = section_content(name, payload);
    let m = before + custom_section(name, payload) + after;
    let p1 = before + seq![0u8];
    assert(m =~= p1 + leb128(content.len()) + (content + after));
    lemma_read_leb128(p1, content.len(), content + after);
    let p2 = p1 + leb128(content.len());
    assert(m =~= p2 + leb128(name.len()) + (name + payload + after));
    lemma_read_leb128(p2, name.len(), name + payload + after);
    let a2 = (p2.len() + leb128(name.len()).len()) as int;
    assert(m.subrange(a2, a2 + name.len()) =~= name);
    assert(m.subrange(a2 + name.len(), a2 + name.len() + payload.len()) =~= payload);
}

/// Relies on wasm_gen::write_custom_section: it pushes the id 0, writes the
/// name's length in LEB128 and the name's bytes, then the payload, and finally
/// inserts the LEB128 length of all that after the id.
#[verifier::external_body]
fn wasm_gen_custom_section(wasm: &mut Vec<u8>, name: &str, payload: &[u8])
    requires
        old(wasm)@.len() + custom_section(name.spec_bytes(), payload@).len() <= isize::MAX,
    ensures
        final(wasm)@ == old(wasm)@ + custom_section(name.spec_bytes(), payload@),
{
    wasm_gen::write_custom_section(wasm, name, payload)
}

/// Appends a custom section named `name` holding `payload` to the module
/// bytes `wasm`. The bytes already there are kept as they are.
pub fn write_custom_section(wasm: &mut Vec<u8>, name: &str, payload: &[u8])
    requires
        old(wasm)@.len() + custom_section(name.spec_bytes(), payload@).len() <= isize::MAX,
    ensures
        final(wasm)@ == old(wasm)@ + custom_section(name.spec_bytes(), payload@),
{
    wasm_gen_custom_section(wasm, name, payload);
}

/// Appending a custom section adds exactly one id byte, the LEB128 length of
/// the content and the content itself, and leaves every earlier byte as it was.
pub proof fn lemma_append_is_additive(before: Seq<u8>, name: Seq<u8>, payload: Seq<u8>)
    ensures
        ({
            let after = before + custom_section(name, payload);
            let n = section_content(name, payload).len();
            &&& after.len() == before.len() + 1 + leb128(n).len() + n
            &&& after.subrange(0, before.len() as int) == before
        }),
{
    let after = before + custom_section(name, payload);
    assert(after.subrange(0, before.len() as int) =~= before);
}

/// A custom section with an empty payload holds only the encoded name.
pub proof fn lemma_empty_payload(name: Seq<u8>)
    ensures
        custom_section(name, seq![]) == seq![0u8] + leb128(leb128(name.len()).len() + name.len())
            + leb128(name.len()) + name,
{
    assert(section_content(name, seq![]) =~= leb128(name.len()) + name);
    assert(custom_section(name, seq![]) =~= seq![0u8] + leb128(leb128(name.len()).len() + name.len())
        + leb128(name.len()) + name);
}

} // verus!
