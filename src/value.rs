use vstd::prelude::*;

verus! {

/// One bit of four-valued logic.
#[derive(Clone, Copy, Debug, PartialEq, Eq, Structural)]
pub enum LogicBit {
    V0,
    V1,
    X,
    Z,
}

/// The value a signal takes at a change point.
#[derive(Clone, Debug, PartialEq, Eq)]
pub enum WaveValue {
    Scalar(LogicBit),
    Vector(Vec<LogicBit>),
    Custom(String),
}

/// Mathematical form of a `WaveValue`.
pub enum ValueModel {
    Scalar(LogicBit),
    Vector(Seq<LogicBit>),
    Custom(Seq<char>),
}

impl View for WaveValue {
    type V = ValueModel;

    open spec fn view(&self) -> ValueModel {
        match self {
            WaveValue::Scalar(b) => ValueModel::Scalar(*b),
            WaveValue::Vector(v) => ValueModel::Vector(v@),
            WaveValue::Custom(s) => ValueModel::Custom(s@),
        }
    }
}

/// The kind of a value, which selects how it is drawn.
#[derive(Clone, Copy, Debug, PartialEq, Eq, Structural)]
pub enum ValueKind {
    Scalar,
    Vector,
    Text,
}

pub open spec fn kind_of(v: ValueModel) -> ValueKind {
    match v {
        ValueModel::Scalar(_) => ValueKind::Scalar,
        ValueModel::Vector(_) => ValueKind::Vector,
        ValueModel::Custom(_) => ValueKind::Text,
    }
}

/// A value change: from `time` on, the signal holds `value`.
#[derive(Clone, Debug, PartialEq, Eq)]
pub struct WaveChangePoint {
    pub time: u64,
    pub value: WaveValue,
}

/// Mathematical form of a change point.
pub struct PointModel {
    pub time: u64,
    pub value: ValueModel,
}

impl View for WaveChangePoint {
    type V = PointModel;

    open spec fn view(&self) -> PointModel {
        PointModel { time: self.time, value: self.value@ }
    }
}

pub open spec fn points_model(s: Seq<WaveChangePoint>) -> Seq<PointModel> {
    s.map_values(|p: WaveChangePoint| p@)
}

/// Times strictly increase along the sequence.
pub open spec fn increasing_times(s: Seq<PointModel>) -> bool {
    forall|i: int, j: int| 0 <= i < j < s.len() ==> s[i].time < s[j].time
}

pub open spec fn bit_char(b: LogicBit) -> char {
    match b {
        LogicBit::V0 => '0',
        LogicBit::V1 => '1',
        LogicBit::X => 'x',
        LogicBit::Z => 'z',
    }
}

/// The text of a bit vector: one character per bit, most significant first.
pub open spec fn bits_text(bits: Seq<LogicBit>) -> Seq<char> {
    bits.map_values(|b: LogicBit| bit_char(b))
}

/// The text shown for a value.
pub open spec fn value_text(v: ValueModel) -> Seq<char> {
    match v {
        ValueModel::Scalar(b) => seq![bit_char(b)],
        ValueModel::Vector(bits) => bits_text(bits),
        ValueModel::Custom(s) => s,
    }
}

impl WaveChangePoint {
    pub fn new(time: u64, value: WaveValue) -> (r: WaveChangePoint)
        ensures
            r.time == time,
            r.value@ == value@,
    {
        WaveChangePoint { time, value }
    }
}

/// The kind of a value.
pub fn kind_of_value(v: &WaveValue) -> (r: ValueKind)
    ensures
        r == kind_of(v@),
{
    match v {
        WaveValue::Scalar(_) => ValueKind::Scalar,
        WaveValue::Vector(_) => ValueKind::Vector,
        WaveValue::Custom(_) => ValueKind::Text,
    }
}

fn copy_bits(bits: &Vec<LogicBit>) -> (r: Vec<LogicBit>)
    ensures
        r@ == bits@,
{
    let mut r: Vec<LogicBit> = Vec::new();
    let mut i: usize = 0;
    while i < bits.len()
        invariant
            i <= bits@.len(),
            r@ == bits@.subrange(0, i as int),
        decreases bits@.len() - i,
    {
        r.push(bits[i]);
        i = i + 1;
    }
    assert(r@ =~= bits@);
    r
}

/// A copy of a value.
pub fn copy_value(v: &WaveValue) -> (r: WaveValue)
    ensures
        r@ == v@,
{
    match v {
        WaveValue::Scalar(b) => WaveValue::Scalar(*b),
        WaveValue::Vector(bits) => WaveValue::Vector(copy_bits(bits)),
        WaveValue::Custom(s) => WaveValue::Custom(s.clone()),
    }
}

fn same_bits(a: &Vec<LogicBit>, b: &Vec<LogicBit>) -> (r: bool)
    ensures
        r == (a@ == b@),
{
    if a.len() != b.len() {
        return false;
    }
    let mut i: usize = 0;
    while i < a.len()
        invariant
            i <= a@.len(),
            a@.len() == b@.len(),
            forall|k: int| 0 <= k < i ==> a@[k] == b@[k],
        decreases a@.len() - i,
    {
        if a[i] != b[i] {
            return false;
        }
        i = i + 1;
    }
    assert(a@ =~= b@);
    true
}

/// Whether two values are the same.
pub fn same_value(a: &WaveValue, b: &WaveValue) -> (r: bool)
    ensures
        r == (a@ == b@),
{
    match (a, b) {
        (WaveValue::Scalar(x), WaveValue::Scalar(y)) => *x == *y,
        (WaveValue::Vector(x), WaveValue::Vector(y)) => same_bits(x, y),
        (WaveValue::Custom(x), WaveValue::Custom(y)) => *x == *y,
        _ => false,
    }
}

fn push_bit_char(s: &mut String, b: LogicBit)
    ensures
        final(s)@ == old(s)@.push(bit_char(b)),
{
    proof {
        reveal_strlit("0");
        reveal_strlit("1");
        reveal_strlit("x");
        reveal_strlit("z");
    }
    match b {
        LogicBit::V0 => s.append("0"),
        LogicBit::V1 => s.append("1"),
        LogicBit::X => s.append("x"),
        LogicBit::Z => s.append("z"),
    }
}

/// The text shown for a value: its bits as `0`, `1`, `x`, `z`, or its text.
pub fn format_value(v: &WaveValue) -> (r: String)
    ensures
        r@ == value_text(v@),
{
    match v {
        WaveValue::Scalar(b) => {
            let mut s = String::new();
            push_bit_char(&mut s, *b);
            s
        },
        WaveValue::Vector(bits) => {
            let mut s = String::new();
            let mut i: usize = 0;
            while i < bits.len()
                invariant
                    i <= bits@.len(),
                    s@ == bits_text(bits@.subrange(0, i as int)),
                decreases bits@.len() - i,
            {
                push_bit_char(&mut s, bits[i]);
                proof {
                    assert(bits_text(bits@.subrange(0, i + 1)) =~= bits_text(
                        bits@.subrange(0, i as int),
                    ).push(bit_char(bits@[i as int])));
                }
                i = i + 1;
            }
            assert(bits@.subrange(0, bits@.len() as int) =~= bits@);
            s
        },
        WaveValue::Custom(t) => t.clone(),
    }
}

} // verus!
