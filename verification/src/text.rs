//! Human-readable descriptions of mappings and of what they hold.

use crate::dim::TDim;
use crate::error::ScanError;
use crate::loop_parser::LoopError;
use crate::mapping::InputMapping;
use crate::mapping::OutputMapping;
use crate::mapping::ScanInfo;
use crate::mapping::StateInitializer;
use crate::tensor::DatumType;
use crate::tensor::Tensor;
use crate::tensor::TensorView;
use crate::op::LirScan;
use vstd::prelude::*;
use vstd::string::StringExecFns;

verus! {

/// The character of a decimal digit.
pub open spec fn digit(d: nat) -> char {
    if d == 0 {
        '0'
    } else if d == 1 {
        '1'
    } else if d == 2 {
        '2'
    } else if d == 3 {
        '3'
    } else if d == 4 {
        '4'
    } else if d == 5 {
        '5'
    } else if d == 6 {
        '6'
    } else if d == 7 {
        '7'
    } else if d == 8 {
        '8'
    } else {
        '9'
    }
}

/// The decimal digits of a natural number, most significant first.
pub open spec fn decimal(n: nat) -> Seq<char>
    decreases n,
{
    if n < 10 {
        seq![digit(n)]
    } else {
        decimal(n / 10) + seq![digit(n % 10)]
    }
}

/// The decimal digits of an integer, after a minus sign where it is
/// negative.
pub open spec fn signed_decimal(v: int) -> Seq<char> {
    if v < 0 {
        seq!['-'] + decimal((-v) as nat)
    } else {
        decimal(v as nat)
    }
}

fn digit_str(d: u64) -> (s: &'static str)
    requires
        d < 10,
    ensures
        s@ == seq![digit(d as nat)],
{
    proof {
        reveal_strlit("0");
        reveal_strlit("1");
        reveal_strlit("2");
        reveal_strlit("3");
        reveal_strlit("4");
        reveal_strlit("5");
        reveal_strlit("6");
        reveal_strlit("7");
        reveal_strlit("8");
        reveal_strlit("9");
    }
    let s = if d == 0 {
        "0"
    } else if d == 1 {
        "1"
    } else if d == 2 {
        "2"
    } else if d == 3 {
        "3"
    } else if d == 4 {
        "4"
    } else if d == 5 {
        "5"
    } else if d == 6 {
        "6"
    } else if d == 7 {
        "7"
    } else if d == 8 {
        "8"
    } else {
        "9"
    };
    assert(s@ =~= seq![digit(d as nat)]);
    s
}

/// Appends the decimal digits of `n`.
pub fn push_decimal(s: &mut String, n: u64)
    ensures
        final(s)@ == old(s)@ + decimal(n as nat),
    decreases n,
{
    if n >= 10 {
        push_decimal(s, n / 10);
    }
    s.append(digit_str(n % 10));
    assert(s@ =~= old(s)@ + decimal(n as nat));
}

/// Appends the decimal digits of `v`, after a minus sign where it is
/// negative.
pub fn push_signed(s: &mut String, v: i64)
    ensures
        final(s)@ == old(s)@ + signed_decimal(v as int),
{
    if v < 0 {
        proof {
            reveal_strlit("-");
        }
        s.append("-");
        let magnitude: u64 = ((-(v + 1)) as u64) + 1;
        push_decimal(s, magnitude);
        assert(s@ =~= old(s)@ + signed_decimal(v as int));
    } else {
        push_decimal(s, v as u64);
    }
}

/// The texts of `items`, with `sep` between each two.
pub open spec fn joined(items: Seq<Seq<char>>, sep: Seq<char>) -> Seq<char>
    decreases items.len(),
{
    if items.len() == 0 {
        Seq::<char>::empty()
    } else if items.len() == 1 {
        items[0]
    } else {
        joined(items.drop_last(), sep) + sep + items.last()
    }
}

/// The name of a datum type.
pub open spec fn datum_type_text(dt: DatumType) -> Seq<char> {
    match dt {
        DatumType::Bool => "Bool"@,
        DatumType::I64 => "I64"@,
        DatumType::TDim => "TDim"@,
    }
}

/// The text of a tensor: its dimensions separated by commas, a comma, its
/// datum type, a space, and its elements separated by a comma and a space.
pub open spec fn tensor_text(t: TensorView) -> Seq<char> {
    joined(Seq::new(t.shape.len(), |k: int| decimal(t.shape[k] as nat)), ","@) + ","@
        + datum_type_text(t.dt) + " "@ + joined(
        Seq::new(t.data.len(), |k: int| signed_decimal(t.data[k] as int)),
        ", "@,
    )
}

/// The text of a dimension.
pub open spec fn dim_text(d: TDim) -> Seq<char>
    decreases d,
{
    match d {
        TDim::Val(v) => signed_decimal(v as int),
        TDim::Sym(s) => "s"@ + decimal(s as nat),
        TDim::Mul(a, b) => "("@ + dim_text(*a) + ")*("@ + dim_text(*b) + ")"@,
        TDim::DivCeil(a, n) => "ceil(("@ + dim_text(*a) + ")/"@ + decimal(n as nat) + ")"@,
    }
}

/// The text of a state initializer.
pub open spec fn initializer_text(i: StateInitializer) -> Seq<char> {
    match i {
        StateInitializer::FromInput(slot) => "inlet "@ + decimal(slot as nat),
        StateInitializer::Value(t) => "tensor "@ + tensor_text(t@),
    }
}

/// The text of an input mapping.
pub open spec fn input_mapping_text(m: InputMapping) -> Seq<char> {
    match m {
        InputMapping::Full { slot } => "Full, inlet "@ + decimal(slot as nat),
        InputMapping::State { initializer } => "State initialized by "@ + initializer_text(
            initializer,
        ),
        InputMapping::Scan(info) => "Scan inlet "@ + decimal(info.slot as nat) + ", axis: "@
            + decimal(info.axis as nat) + ", chunk: "@ + signed_decimal(info.chunk as int) + "."@,
        InputMapping::IterIndex => "Iter index"@,
    }
}

/// Says that an output is fed back as a hidden state.
pub open spec fn state_text(state: bool) -> Seq<char> {
    if state {
        "State. "@
    } else {
        Seq::<char>::empty()
    }
}

/// Says where the last value of an output goes.
pub open spec fn last_value_text(slot: Option<usize>) -> Seq<char> {
    match slot {
        Some(slot) => "Last value to outlet "@ + decimal(slot as nat) + ". "@,
        None => Seq::<char>::empty(),
    }
}

/// Says where an output is accumulated, and along which axis.
pub open spec fn scan_text(scan: Option<ScanInfo>) -> Seq<char> {
    match scan {
        Some(info) => "Full value to outlet "@ + decimal(info.slot as nat) + " (axis: "@ + decimal(
            info.axis as nat,
        ) + "). "@,
        None => Seq::<char>::empty(),
    }
}

/// Says how long the accumulated axis is in full.
pub open spec fn hint_text(hint: Option<TDim>) -> Seq<char> {
    match hint {
        Some(h) => "Full len "@ + dim_text(h) + ". "@,
        None => Seq::<char>::empty(),
    }
}

/// The text of an output mapping: one sentence for each thing it does.
pub open spec fn output_mapping_text(m: OutputMapping<TDim>) -> Seq<char> {
    state_text(m.state) + last_value_text(m.last_value_slot) + scan_text(m.scan) + hint_text(
        m.full_dim_hint,
    )
}

/// The lines that describe a scan: one for each input mapping, then one
/// for each output mapping, each with its index.
pub open spec fn info_lines(im: Seq<InputMapping>, om: Seq<OutputMapping<TDim>>) -> Seq<
    Seq<char>,
> {
    Seq::new(
        im.len() + om.len(),
        |k: int|
            if k < im.len() {
                "Model input  #"@ + decimal(k as nat) + ": "@ + input_mapping_text(im[k])
            } else {
                "Model output #"@ + decimal((k - im.len()) as nat) + ": "@ + output_mapping_text(
                    om[k - im.len()],
                )
            },
    )
}

/// The contents of a list of strings.
pub open spec fn texts(lines: Seq<String>) -> Seq<Seq<char>> {
    Seq::new(lines.len(), |k: int| lines[k]@)
}

/// Appends the text of a dimension.
pub fn push_dim(s: &mut String, d: &TDim)
    ensures
        final(s)@ == old(s)@ + dim_text(*d),
    decreases *d,
{
    match d {
        TDim::Val(v) => {
            push_signed(s, *v);
        },
        TDim::Sym(sym) => {
            s.append("s");
            push_decimal(s, *sym as u64);
            assert(s@ =~= old(s)@ + dim_text(*d));
        },
        TDim::Mul(a, b) => {
            s.append("(");
            push_dim(s, a);
            s.append(")*(");
            push_dim(s, b);
            s.append(")");
            assert(s@ =~= old(s)@ + dim_text(*d));
        },
        TDim::DivCeil(a, n) => {
            s.append("ceil((");
            push_dim(s, a);
            s.append(")/");
            push_decimal(s, *n);
            s.append(")");
            assert(s@ =~= old(s)@ + dim_text(*d));
        },
    }
}

/// Appends the text of a tensor.
pub fn push_tensor(s: &mut String, t: &Tensor)
    ensures
        final(s)@ == old(s)@ + tensor_text(t@),
{
    let shape = t.shape();
    let ghost dims = Seq::new(t@.shape.len(), |k: int| decimal(t@.shape[k] as nat));
    let n = shape.len();
    let mut k: usize = 0;
    assert(dims.take(0) =~= Seq::<Seq<char>>::empty());
    while k < n
        invariant
            n == shape@.len(),
            shape@ == t@.shape,
            k <= n,
            dims == Seq::new(t@.shape.len(), |k: int| decimal(t@.shape[k] as nat)),
            s@ == old(s)@ + joined(dims.take(k as int), ","@),
        decreases n - k,
    {
        proof {
            assert(dims.take(k as int + 1).drop_last() =~= dims.take(k as int));
            assert(dims.take(k as int + 1).last() == dims[k as int]);
        }
        if k > 0 {
            s.append(",");
        }
        push_decimal(s, shape[k] as u64);
        assert(s@ =~= old(s)@ + joined(dims.take(k as int + 1), ","@));
        k += 1;
    }
    assert(dims.take(n as int) =~= dims);
    s.append(",");
    match t.datum_type() {
        DatumType::Bool => {
            s.append("Bool");
        },
        DatumType::I64 => {
            s.append("I64");
        },
        DatumType::TDim => {
            s.append("TDim");
        },
    }
    s.append(" ");
    let ghost head = s@;
    assert(head =~= old(s)@ + joined(dims, ","@) + ","@ + datum_type_text(t@.dt) + " "@);
    let data = t.data();
    let ghost items = Seq::new(t@.data.len(), |k: int| signed_decimal(t@.data[k] as int));
    let m = data.len();
    let mut k: usize = 0;
    assert(items.take(0) =~= Seq::<Seq<char>>::empty());
    while k < m
        invariant
            m == data@.len(),
            data@ == t@.data,
            k <= m,
            items == Seq::new(t@.data.len(), |k: int| signed_decimal(t@.data[k] as int)),
            s@ == head + joined(items.take(k as int), ", "@),
        decreases m - k,
    {
        proof {
            assert(items.take(k as int + 1).drop_last() =~= items.take(k as int));
            assert(items.take(k as int + 1).last() == items[k as int]);
        }
        if k > 0 {
            s.append(", ");
        }
        push_signed(s, data[k]);
        assert(s@ =~= head + joined(items.take(k as int + 1), ", "@));
        k += 1;
    }
    assert(items.take(m as int) =~= items);
    assert(s@ =~= old(s)@ + tensor_text(t@));
}

impl StateInitializer {
    /// The initializer in words.
    pub fn describe(&self) -> (s: String)
        ensures
            s@ == initializer_text(*self),
    {
        match self {
            StateInitializer::FromInput(slot) => {
                let mut s = String::from_str("inlet ");
                push_decimal(&mut s, *slot as u64);
                s
            },
            StateInitializer::Value(t) => {
                let mut s = String::from_str("tensor ");
                push_tensor(&mut s, t);
                s
            },
        }
    }
}

impl InputMapping {
    /// The mapping in words.
    pub fn describe(&self) -> (s: String)
        ensures
            s@ == input_mapping_text(*self),
    {
        match self {
            InputMapping::Full { slot } => {
                let mut s = String::from_str("Full, inlet ");
                push_decimal(&mut s, *slot as u64);
                s
            },
            InputMapping::State { initializer } => {
                let mut s = String::from_str("State initialized by ");
                let text = initializer.describe();
                s.append(text.as_str());
                s
            },
            InputMapping::Scan(info) => {
                let mut s = String::from_str("Scan inlet ");
                push_decimal(&mut s, info.slot as u64);
                s.append(", axis: ");
                push_decimal(&mut s, info.axis as u64);
                s.append(", chunk: ");
                push_signed(&mut s, info.chunk as i64);
                s.append(".");
                assert(s@ =~= input_mapping_text(*self));
                s
            },
            InputMapping::IterIndex => String::from_str("Iter index"),
        }
    }
}

fn last_value_part(slot: Option<usize>) -> (s: String)
    ensures
        s@ == last_value_text(slot),
{
    let mut s = String::new();
    if let Some(slot) = slot {
        s.append("Last value to outlet ");
        push_decimal(&mut s, slot as u64);
        s.append(". ");
    }
    assert(s@ =~= last_value_text(slot));
    s
}

fn scan_part(scan: Option<ScanInfo>) -> (s: String)
    ensures
        s@ == scan_text(scan),
{
    let mut s = String::new();
    if let Some(info) = scan {
        s.append("Full value to outlet ");
        push_decimal(&mut s, info.slot as u64);
        s.append(" (axis: ");
        push_decimal(&mut s, info.axis as u64);
        s.append("). ");
    }
    assert(s@ =~= scan_text(scan));
    s
}

fn hint_part(hint: &Option<TDim>) -> (s: String)
    ensures
        s@ == hint_text(*hint),
{
    let mut s = String::new();
    if let Some(h) = hint {
        s.append("Full len ");
        push_dim(&mut s, h);
        s.append(". ");
    }
    assert(s@ =~= hint_text(*hint));
    s
}

impl OutputMapping<TDim> {
    /// The mapping in words.
    pub fn describe(&self) -> (s: String)
        ensures
            s@ == output_mapping_text(*self),
    {
        let mut s = String::new();
        if self.state {
            s.append("State. ");
        }
        assert(s@ =~= state_text(self.state));
        let last = last_value_part(self.last_value_slot);
        s.append(last.as_str());
        let scan = scan_part(self.scan);
        s.append(scan.as_str());
        let hint = hint_part(&self.full_dim_hint);
        s.append(hint.as_str());
        s
    }
}

impl<B> LirScan<B> {
    /// One line for each input mapping, then one for each output mapping.
    pub fn info(&self) -> (lines: Vec<String>)
        ensures
            texts(lines@) == info_lines(self.0.input_mapping@, self.0.output_mapping@),
    {
        let op = &self.0;
        let ghost want = info_lines(op.input_mapping@, op.output_mapping@);
        let mut lines: Vec<String> = Vec::new();
        let n = op.input_mapping.len();
        let mut ix: usize = 0;
        while ix < n
            invariant
                *op == self.0,
                n == op.input_mapping@.len(),
                ix <= n,
                want == info_lines(op.input_mapping@, op.output_mapping@),
                lines@.len() == ix,
                forall|k: int| 0 <= k < ix ==> (#[trigger] lines@[k])@ == want[k],
            decreases n - ix,
        {
            let mut line = String::from_str("Model input  #");
            push_decimal(&mut line, ix as u64);
            line.append(": ");
            let text = op.input_mapping[ix].describe();
            line.append(text.as_str());
            assert(line@ =~= want[ix as int]);
            lines.push(line);
            ix += 1;
        }
        let m = op.output_mapping.len();
        let mut ix: usize = 0;
        while ix < m
            invariant
                *op == self.0,
                n == op.input_mapping@.len(),
                m == op.output_mapping@.len(),
                ix <= m,
                want == info_lines(op.input_mapping@, op.output_mapping@),
                lines@.len() == n + ix,
                forall|k: int| 0 <= k < n + ix ==> (#[trigger] lines@[k])@ == want[k],
            decreases m - ix,
        {
            let mut line = String::from_str("Model output #");
            push_decimal(&mut line, ix as u64);
            line.append(": ");
            let text = op.output_mapping[ix].describe();
            line.append(text.as_str());
            assert(line@ =~= want[n + ix]);
            lines.push(line);
            ix += 1;
        }
        assert(texts(lines@) =~= want);
        lines
    }
}

/// The text of a failure of a scan.
pub open spec fn error_text(e: ScanError) -> Seq<char> {
    match e {
        ScanError::BadTripCount => "Trip count is not a scalar TDim"@,
        ScanError::BadCondition => "Loop exit condition is not a scalar boolean"@,
        ScanError::SliceMismatch => "Scanned axis or chunk does not fit the tensor"@,
        ScanError::MappingArity => "Mappings do not match the body or the outer inputs"@,
        ScanError::BodyFailure { iteration, cause } => "Evaluating inner body, iteration "@
            + decimal(iteration as nat) + ": "@ + cause@,
        ScanError::ShapeResolutionFailure => "Shape does not resolve to concrete dimensions"@,
        ScanError::PositionOverflow => "Position cannot be advanced"@,
    }
}

/// The text of a failure to map a loop.
pub open spec fn loop_error_text(e: LoopError) -> Seq<char> {
    match e {
        LoopError::NoExitCondition => "Loop has no exit condition"@,
        LoopError::UnmatchedInputs => "Loop has unmatched number of inputs and subgraph inputs"@,
        LoopError::UnmatchedOutputs => "Loop has unmatched number of outputs and subgraph outputs"@,
    }
}

impl ScanError {
    /// The failure in words.
    pub fn describe(&self) -> (s: String)
        ensures
            s@ == error_text(*self),
    {
        match self {
            ScanError::BadTripCount => String::from_str("Trip count is not a scalar TDim"),
            ScanError::BadCondition => String::from_str(
                "Loop exit condition is not a scalar boolean",
            ),
            ScanError::SliceMismatch => String::from_str(
                "Scanned axis or chunk does not fit the tensor",
            ),
            ScanError::MappingArity => String::from_str(
                "Mappings do not match the body or the outer inputs",
            ),
            ScanError::BodyFailure { iteration, cause } => {
                let mut s = String::from_str("Evaluating inner body, iteration ");
                push_decimal(&mut s, *iteration as u64);
                s.append(": ");
                s.append(cause.as_str());
                s
            },
            ScanError::ShapeResolutionFailure => String::from_str(
                "Shape does not resolve to concrete dimensions",
            ),
            ScanError::PositionOverflow => String::from_str("Position cannot be advanced"),
        }
    }
}

impl LoopError {
    /// The failure in words.
    pub fn describe(&self) -> (s: String)
        ensures
            s@ == loop_error_text(*self),
    {
        match self {
            LoopError::NoExitCondition => String::from_str("Loop has no exit condition"),
            LoopError::UnmatchedInputs => String::from_str(
                "Loop has unmatched number of inputs and subgraph inputs",
            ),
            LoopError::UnmatchedOutputs => String::from_str(
                "Loop has unmatched number of outputs and subgraph outputs",
            ),
        }
    }
}

} // verus!
