//! The metadata records and their XDR encoding.
use vstd::prelude::*;
use stellar_xdr::curr::{
    Limits, ScEnvMetaEntry, ScSpecEntry, ScSpecFunctionInputV0, ScSpecFunctionV0, ScSpecTypeDef,
    ScSymbol, WriteXdr,
};

verus! {

/// Longest doc string of a function or a parameter.
pub const DOC_LIMIT: usize = 1024;

/// Longest function name.
pub const FUNCTION_NAME_LIMIT: usize = 32;

/// Longest parameter name.
pub const INPUT_NAME_LIMIT: usize = 30;

/// Most parameters of one function.
pub const MAX_INPUTS: usize = 10;

/// Most return types of one function.
pub const MAX_OUTPUTS: usize = 1;

/// Error that the XDR writer reports.
#[verifier::external_type_specification]
#[verifier::external_body]
pub struct ExXdrError(stellar_xdr::curr::Error);

/// A type as the XDR writer takes it.
#[verifier::external_type_specification]
#[verifier::external_body]
pub struct ExScSpecTypeDef(stellar_xdr::curr::ScSpecTypeDef);

/// A value type that a function specification can name, with no parameters.
#[derive(Clone, Copy, Debug, PartialEq, Eq, Structural)]
pub enum SpecType {
    Val,
    Bool,
    Void,
    U32,
    I32,
    U64,
    I64,
    U128,
    I128,
    U256,
    I256,
    Bytes,
    Address,
}

/// The union tag that XDR writes for each type.
pub open spec fn type_tag(t: SpecType) -> nat {
    match t {
        SpecType::Val => 0,
        SpecType::Bool => 1,
        SpecType::Void => 2,
        SpecType::U32 => 4,
        SpecType::I32 => 5,
        SpecType::U64 => 6,
        SpecType::I64 => 7,
        SpecType::U128 => 10,
        SpecType::I128 => 11,
        SpecType::U256 => 12,
        SpecType::I256 => 13,
        SpecType::Bytes => 14,
        SpecType::Address => 19,
    }
}

/// One entry of the environment metadata.
#[derive(Clone, Copy, Debug, PartialEq, Eq, Structural)]
pub enum EnvMetaEntry {
    /// The revision of the host interface that the contract was built for.
    InterfaceVersion(u64),
}

/// One parameter of a function: doc string, name and type.
#[derive(Clone, Debug)]
pub struct FunctionInput {
    pub doc: Vec<u8>,
    pub name: Vec<u8>,
    pub type_: SpecType,
}

/// A parameter as the contracts see it.
pub struct FunctionInputView {
    pub doc: Seq<u8>,
    pub name: Seq<u8>,
    pub type_: SpecType,
}

impl View for FunctionInput {
    type V = FunctionInputView;

    open spec fn view(&self) -> FunctionInputView {
        FunctionInputView { doc: self.doc@, name: self.name@, type_: self.type_ }
    }
}

/// A function's specification: doc string, name, parameters in order and
/// return types in order.
#[derive(Clone, Debug)]
pub struct FunctionSpec {
    pub doc: Vec<u8>,
    pub name: Vec<u8>,
    pub inputs: Vec<FunctionInput>,
    pub outputs: Vec<SpecType>,
}

/// A function's specification as the contracts see it.
pub struct FunctionSpecView {
    pub doc: Seq<u8>,
    pub name: Seq<u8>,
    pub inputs: Seq<FunctionInputView>,
    pub outputs: Seq<SpecType>,
}

impl View for FunctionSpec {
    type V = FunctionSpecView;

    open spec fn view(&self) -> FunctionSpecView {
        FunctionSpecView {
            doc: self.doc@,
            name: self.name@,
            inputs: self.inputs@.map_values(|i: FunctionInput| i@),
            outputs: self.outputs@,
        }
    }
}

/// Why a record cannot be encoded.
#[derive(Clone, Copy, Debug, PartialEq, Eq, Structural)]
pub enum EncodeError {
    /// A doc string or a name is longer than its bound.
    StringTooLong,
    /// A function has more parameters or return types than allowed.
    TooManyItems,
}

// ---- the encoding -------------------------------------------------------

/// Four bytes, most significant first.
pub open spec fn be32(n: nat) -> Seq<u8> {
    seq![
        (n / 0x100_0000 % 0x100) as u8,
        (n / 0x1_0000 % 0x100) as u8,
        (n / 0x100 % 0x100) as u8,
        (n % 0x100) as u8,
    ]
}

/// Eight bytes, most significant first.
pub open spec fn be64(n: nat) -> Seq<u8> {
    be32(n / 0x1_0000_0000) + be32(n % 0x1_0000_0000)
}

/// The zero bytes that round a length up to a multiple of four.
pub open spec fn padding(len: nat) -> Seq<u8> {
    Seq::new(((4 - len % 4) % 4) as nat, |i: int| 0u8)
}

/// A variable-length byte string: its length, its bytes, then padding.
pub open spec fn xdr_bytes(b: Seq<u8>) -> Seq<u8> {
    be32(b.len()) + b + padding(b.len())
}

/// A type: its tag as a 32-bit integer.
pub open spec fn xdr_type(t: SpecType) -> Seq<u8> {
    be32(type_tag(t))
}

/// A parameter: doc, name, type.
#[verifier::opaque]
pub open spec fn xdr_input(i: FunctionInputView) -> Seq<u8> {
    xdr_bytes(i.doc) + xdr_bytes(i.name) + xdr_type(i.type_)
}

/// The parameters one after another.
pub open spec fn xdr_inputs(s: Seq<FunctionInputView>) -> Seq<u8>
    decreases s.len(),
{
    if s.len() == 0 {
        seq![]
    } else {
        xdr_inputs(s.drop_last()) + xdr_input(s.last())
    }
}

/// The types one after another.
pub open spec fn xdr_types(s: Seq<SpecType>) -> Seq<u8>
    decreases s.len(),
{
    if s.len() == 0 {
        seq![]
    } else {
        xdr_types(s.drop_last()) + xdr_type(s.last())
    }
}

/// An environment metadata entry: the tag of the interface version (zero),
/// then the version as a 64-bit integer.
pub open spec fn xdr_env_meta(e: EnvMetaEntry) -> Seq<u8> {
    match e {
        EnvMetaEntry::InterfaceVersion(v) => be32(0) + be64(v as nat),
    }
}

/// A specification entry of kind function (tag zero): doc, name, the
/// parameter count and parameters, the return type count and types.
pub open spec fn xdr_function(f: FunctionSpecView) -> Seq<u8> {
    be32(0) + xdr_bytes(f.doc) + xdr_bytes(f.name) + be32(f.inputs.len()) + xdr_inputs(f.inputs)
        + be32(f.outputs.len()) + xdr_types(f.outputs)
}

/// Entries one after another, with no count before them.
pub open spec fn xdr_env_meta_stream(s: Seq<EnvMetaEntry>) -> Seq<u8>
    decreases s.len(),
{
    if s.len() == 0 {
        seq![]
    } else {
        xdr_env_meta_stream(s.drop_last()) + xdr_env_meta(s.last())
    }
}

/// Entries one after another, with no count before them.
pub open spec fn xdr_spec_stream(s: Seq<FunctionSpecView>) -> Seq<u8>
    decreases s.len(),
{
    if s.len() == 0 {
        seq![]
    } else {
        xdr_spec_stream(s.drop_last()) + xdr_function(s.last())
    }
}

/// The error of the first entry that cannot be encoded, if one cannot.
pub open spec fn spec_stream_error(s: Seq<FunctionSpecView>) -> Option<EncodeError>
    decreases s.len(),
{
    if s.len() == 0 {
        None
    } else if spec_stream_error(s.drop_last()) is Some {
        spec_stream_error(s.drop_last())
    } else {
        spec_limit_error(s.last())
    }
}

/// A list of one entry encodes as that entry.
pub proof fn lemma_single_env_meta(e: EnvMetaEntry)
    ensures
        xdr_env_meta_stream(seq![e]) == xdr_env_meta(e),
{
    let s = seq![e];
    assert(s.drop_last().len() == 0);
    assert(xdr_env_meta_stream(s.drop_last()) == Seq::<u8>::empty());
    assert(s.last() == e);
    assert(xdr_env_meta_stream(s) =~= xdr_env_meta(e));
}

/// A list of one entry encodes as that entry, and meets its error.
pub proof fn lemma_single_function(f: FunctionSpecView)
    ensures
        xdr_spec_stream(seq![f]) == xdr_function(f),
        spec_stream_error(seq![f]) == spec_limit_error(f),
{
    let s = seq![f];
    assert(s.drop_last().len() == 0);
    assert(xdr_spec_stream(s.drop_last()) == Seq::<u8>::empty());
    assert(spec_stream_error(s.drop_last()) is None);
    assert(s.last() == f);
    assert(xdr_spec_stream(s) =~= xdr_function(f));
}

/// Once a prefix of the list meets an error, the whole list meets it.
proof fn lemma_stream_error_kept(s: Seq<FunctionSpecView>, n: int)
    requires
        0 <= n <= s.len(),
        spec_stream_error(s.subrange(0, n)) is Some,
    ensures
        spec_stream_error(s) == spec_stream_error(s.subrange(0, n)),
    decreases s.len(),
{
    if n < s.len() {
        assert(s.drop_last().subrange(0, n) =~= s.subrange(0, n));
        lemma_stream_error_kept(s.drop_last(), n);
    } else {
        assert(s.subrange(0, n) =~= s);
    }
}

/// Whether every string and list of the record is within its bound.
pub open spec fn within_limits(f: FunctionSpecView) -> bool {
    spec_limit_error(f) is None
}

/// Whether a parameter's doc and name are within their bounds.
pub open spec fn input_strings_fit(i: FunctionInputView) -> bool {
    i.doc.len() <= DOC_LIMIT && i.name.len() <= INPUT_NAME_LIMIT
}

/// The error that encoding `f` meets: a string over its bound first, then a
/// list over its bound.
pub open spec fn spec_limit_error(f: FunctionSpecView) -> Option<EncodeError> {
    if f.doc.len() > DOC_LIMIT || f.name.len() > FUNCTION_NAME_LIMIT || exists|k: int|
        0 <= k < f.inputs.len() && !#[trigger] input_strings_fit(f.inputs[k]) {
        Some(EncodeError::StringTooLong)
    } else if f.inputs.len() > MAX_INPUTS || f.outputs.len() > MAX_OUTPUTS {
        Some(EncodeError::TooManyItems)
    } else {
        None
    }
}

/// Longest XDR encoding of a function entry within the bounds.
pub const MAX_FUNCTION_XDR_LEN: usize = 11806;

proof fn lemma_bytes_len(b: Seq<u8>)
    ensures
        b.len() + 4 <= xdr_bytes(b).len() <= b.len() + 7,
{
}

proof fn lemma_inputs_len(s: Seq<FunctionInputView>)
    requires
        forall|k: int| 0 <= k < s.len() ==> #[trigger] input_strings_fit(s[k]),
    ensures
        xdr_inputs(s).len() <= 1072 * s.len(),
    decreases s.len(),
{
    if s.len() > 0 {
        assert(input_strings_fit(s[s.len() - 1]));
        reveal(xdr_input);
        lemma_bytes_len(s.last().doc);
        lemma_bytes_len(s.last().name);
        lemma_inputs_len(s.drop_last());
    }
}

proof fn lemma_types_len(s: Seq<SpecType>)
    ensures
        xdr_types(s).len() == 4 * s.len(),
    decreases s.len(),
{
    if s.len() > 0 {
        lemma_types_len(s.drop_last());
    }
}

/// A function entry within the bounds encodes to at most
/// `MAX_FUNCTION_XDR_LEN` bytes.
pub proof fn lemma_function_len(f: FunctionSpecView)
    requires
        within_limits(f),
    ensures
        xdr_function(f).len() <= MAX_FUNCTION_XDR_LEN,
{
    lemma_bytes_len(f.doc);
    lemma_bytes_len(f.name);
    lemma_inputs_len(f.inputs);
    lemma_types_len(f.outputs);
}

/// A list of entries that encodes without error takes at most
/// `MAX_FUNCTION_XDR_LEN` bytes an entry.
pub proof fn lemma_spec_stream_len(s: Seq<FunctionSpecView>)
    requires
        spec_stream_error(s) is None,
    ensures
        xdr_spec_stream(s).len() <= MAX_FUNCTION_XDR_LEN * s.len(),
    decreases s.len(),
{
    if s.len() > 0 {
        lemma_spec_stream_len(s.drop_last());
        lemma_function_len(s.last());
    }
}

/// A function name or a parameter name over its bound makes encoding fail
/// with `StringTooLong`.
pub proof fn lemma_long_name_fails(f: FunctionSpecView)
    requires
        f.name.len() > FUNCTION_NAME_LIMIT || exists|k: int|
            0 <= k < f.inputs.len() && #[trigger] f.inputs[k].name.len() > INPUT_NAME_LIMIT,
    ensures
        spec_limit_error(f) == Some(EncodeError::StringTooLong),
{
    if f.name.len() <= FUNCTION_NAME_LIMIT {
        let k = choose|k: int| 0 <= k < f.inputs.len() && #[trigger] f.inputs[k].name.len() > INPUT_NAME_LIMIT;
        assert(!input_strings_fit(f.inputs[k]));
    }
}

/// Encoding is deterministic: two lists of records with the same contents,
/// however they were built, encode to the same bytes or fail alike.
pub proof fn lemma_encoding_deterministic(x: &[FunctionSpec], y: &[FunctionSpec])
    requires
        x@.len() == y@.len(),
        forall|k: int| 0 <= k < x@.len() ==> #[trigger] x@[k]@ == y@[k]@,
    ensures
        ({
            let a = x@.map_values(|f: FunctionSpec| f@);
            let b = y@.map_values(|f: FunctionSpec| f@);
            xdr_spec_stream(a) == xdr_spec_stream(b) && spec_stream_error(a) == spec_stream_error(b)
        }),
{
    assert(x@.map_values(|f: FunctionSpec| f@) =~= y@.map_values(|f: FunctionSpec| f@));
}

// ---- the XDR writer ---------------------------------------------------------

/// Relies on stellar_xdr's WriteXdr::to_xdr for ScEnvMetaEntry: the union tag
/// as a big-endian i32, then the u64 big-endian. With no limits set, writing
/// into a fresh vector cannot fail.
#[verifier::external_body]
fn env_meta_entry_to_xdr(e: EnvMetaEntry) -> (r: Result<Vec<u8>, stellar_xdr::curr::Error>)
    ensures
        r is Ok,
        r matches Ok(b) ==> b@ == xdr_env_meta(e),
{
    match e {
        EnvMetaEntry::InterfaceVersion(v) => {
            ScEnvMetaEntry::ScEnvMetaKindInterfaceVersion(v).to_xdr(Limits::none())
        },
    }
}

/// Builds stellar_xdr's ScSpecTypeDef for a type, one variant for each; the
/// writer below relies on it.
#[verifier::external_body]
fn spec_type_def(t: SpecType) -> ScSpecTypeDef {
    match t {
        SpecType::Val => ScSpecTypeDef::Val,
        SpecType::Bool => ScSpecTypeDef::Bool,
        SpecType::Void => ScSpecTypeDef::Void,
        SpecType::U32 => ScSpecTypeDef::U32,
        SpecType::I32 => ScSpecTypeDef::I32,
        SpecType::U64 => ScSpecTypeDef::U64,
        SpecType::I64 => ScSpecTypeDef::I64,
        SpecType::U128 => ScSpecTypeDef::U128,
        SpecType::I128 => ScSpecTypeDef::I128,
        SpecType::U256 => ScSpecTypeDef::U256,
        SpecType::I256 => ScSpecTypeDef::I256,
        SpecType::Bytes => ScSpecTypeDef::Bytes,
        SpecType::Address => ScSpecTypeDef::Address,
    }
}

/// Relies on stellar_xdr: `TryFrom` of StringM and VecM accepts any value up
/// to the type's bound, and WriteXdr::to_xdr for ScSpecEntry writes the tag,
/// then each field in order; a string or a list as its u32 length and its
/// items, a string padded with zeros to four bytes, a type as its tag. With no
/// limits set, writing into a fresh vector cannot fail.
#[verifier::external_body]
fn function_entry_to_xdr(f: &FunctionSpec) -> (r: Result<Vec<u8>, stellar_xdr::curr::Error>)
    requires
        within_limits(f@),
    ensures
        r is Ok,
        r matches Ok(b) ==> b@ == xdr_function(f@),
{
    let mut inputs = Vec::new();
    for i in f.inputs.iter() {
        let (doc, name) = (i.doc.clone().try_into()?, i.name.clone().try_into()?);
        inputs.push(ScSpecFunctionInputV0 { doc, name, type_: spec_type_def(i.type_) });
    }
    let outputs: Vec<ScSpecTypeDef> = f.outputs.iter().map(|t| spec_type_def(*t)).collect();
    let entry = ScSpecEntry::FunctionV0(ScSpecFunctionV0 {
        doc: f.doc.clone().try_into()?,
        name: ScSymbol(f.name.clone().try_into()?),
        inputs: inputs.try_into()?,
        outputs: outputs.try_into()?,
    });
    entry.to_xdr(Limits::none())
}

// ---- encoding, verified --------------------------------------------------

/// The bound that `f` breaks, if any.
pub fn limit_error(f: &FunctionSpec) -> (r: Option<EncodeError>)
    ensures
        r == spec_limit_error(f@),
{
    if f.doc.len() > DOC_LIMIT || f.name.len() > FUNCTION_NAME_LIMIT {
        return Some(EncodeError::StringTooLong);
    }
    let mut k: usize = 0;
    while k < f.inputs.len()
        invariant
            k <= f.inputs@.len(),
            forall|j: int| 0 <= j < k ==> #[trigger] input_strings_fit(f@.inputs[j]),
        decreases f.inputs@.len() - k,
    {
        let i = &f.inputs[k];
        if i.doc.len() > DOC_LIMIT || i.name.len() > INPUT_NAME_LIMIT {
            assert(!input_strings_fit(f@.inputs[k as int]));
            return Some(EncodeError::StringTooLong);
        }
        k = k + 1;
    }
    if f.inputs.len() > MAX_INPUTS || f.outputs.len() > MAX_OUTPUTS {
        Some(EncodeError::TooManyItems)
    } else {
        None
    }
}

/// The XDR bytes of one function specification entry, or the bound that it
/// breaks.
pub fn encode_function(f: &FunctionSpec) -> (r: Result<Vec<u8>, EncodeError>)
    ensures
        match spec_limit_error(f@) {
            Some(e) => r == Err::<Vec<u8>, EncodeError>(e),
            None => r matches Ok(b) && b@ == xdr_function(f@),
        },
{
    if let Some(e) = limit_error(f) {
        return Err(e);
    }
    match function_entry_to_xdr(f) {
        Ok(b) => Ok(b),
        Err(_) => Err(EncodeError::StringTooLong),
    }
}

/// The XDR bytes of a list of environment metadata entries, one after another.
pub fn encode_env_meta(entries: &[EnvMetaEntry]) -> (r: Vec<u8>)
    ensures
        r@ == xdr_env_meta_stream(entries@),
{
    let mut out: Vec<u8> = Vec::new();
    let mut k: usize = 0;
    while k < entries.len()
        invariant
            k <= entries@.len(),
            out@ == xdr_env_meta_stream(entries@.subrange(0, k as int)),
        decreases entries@.len() - k,
    {
        let b = match env_meta_entry_to_xdr(entries[k]) {
            Ok(b) => b,
            Err(_) => Vec::new(),
        };
        let mut b = b;
        out.append(&mut b);
        assert(entries@.subrange(0, k + 1).drop_last() =~= entries@.subrange(0, k as int));
        k = k + 1;
    }
    assert(entries@.subrange(0, k as int) =~= entries@);
    out
}

/// The XDR bytes of a list of function specification entries, one after
/// another; or the error of the first entry that breaks a bound, and then
/// nothing is encoded.
pub fn encode_spec(entries: &[FunctionSpec]) -> (r: Result<Vec<u8>, EncodeError>)
    ensures
        ({
            let s = entries@.map_values(|f: FunctionSpec| f@);
            match spec_stream_error(s) {
                Some(e) => r == Err::<Vec<u8>, EncodeError>(e),
                None => r matches Ok(b) && b@ == xdr_spec_stream(s),
            }
        }),
{
    let ghost s = entries@.map_values(|f: FunctionSpec| f@);
    let mut out: Vec<u8> = Vec::new();
    let mut k: usize = 0;
    while k < entries.len()
        invariant
            k <= entries@.len(),
            s == entries@.map_values(|f: FunctionSpec| f@),
            spec_stream_error(s.subrange(0, k as int)) is None,
            out@ == xdr_spec_stream(s.subrange(0, k as int)),
        decreases entries@.len() - k,
    {
        assert(s.subrange(0, k + 1).drop_last() =~= s.subrange(0, k as int));
        assert(s.subrange(0, k + 1).last() == entries@[k as int]@);
        let mut b = match encode_function(&entries[k]) {
            Ok(b) => b,
            Err(e) => {
                proof {
                    lemma_stream_error_kept(s, k as int + 1);
                }
                return Err(e);
            },
        };
        out.append(&mut b);
        k = k + 1;
    }
    assert(s.subrange(0, k as int) =~= s);
    Ok(out)
}

} // verus!
