use vstd::prelude::*;

verus! {

/// Largest mantissa magnitude that a decimal value can hold: 96 bits.
pub const DECIMAL_MAX_MANTISSA: i128 = 0xFFFF_FFFF_FFFF_FFFF_FFFF_FFFF;

/// Largest scale that a decimal value can hold.
pub const DECIMAL_MAX_SCALE: u32 = 28;

/// A fixed-point decimal number, `mantissa / 10^scale`, within the range that
/// `rust_decimal::Decimal` represents.
pub struct DecimalValue {
    mantissa: i128,
    scale: u32,
}

impl DecimalValue {
    #[verifier::type_invariant]
    spec fn in_range(self) -> bool {
        &&& self.scale <= DECIMAL_MAX_SCALE
        &&& -DECIMAL_MAX_MANTISSA <= self.mantissa <= DECIMAL_MAX_MANTISSA
    }

    /// The mantissa of the number.
    pub closed spec fn spec_mantissa(self) -> i128 {
        self.mantissa
    }

    /// The number of decimal digits after the point.
    pub closed spec fn spec_scale(self) -> u32 {
        self.scale
    }

    /// Builds `mantissa / 10^scale`; fails when it lies outside the representable range.
    pub fn new(mantissa: i128, scale: u32) -> (r: Result<DecimalValue, crate::Error>)
        ensures
            (scale <= DECIMAL_MAX_SCALE && -DECIMAL_MAX_MANTISSA <= mantissa
                <= DECIMAL_MAX_MANTISSA) <==> r is Ok,
            r matches Ok(d) ==> d.spec_mantissa() == mantissa && d.spec_scale() == scale,
            r matches Err(e) ==> e is SerializationFailure,
    {
        if scale <= DECIMAL_MAX_SCALE && -DECIMAL_MAX_MANTISSA <= mantissa && mantissa
            <= DECIMAL_MAX_MANTISSA {
            Ok(DecimalValue { mantissa, scale })
        } else {
            Err(crate::Error::SerializationFailure)
        }
    }

    /// The mantissa of the number.
    pub fn mantissa(&self) -> (r: i128)
        ensures
            r == self.spec_mantissa(),
    {
        self.mantissa
    }

    /// The number of decimal digits after the point.
    pub fn scale(&self) -> (r: u32)
        ensures
            r == self.spec_scale(),
    {
        self.scale
    }
}

/// A value bound to a column.
pub enum Value {
    /// SQL `null`.
    Null,
    /// Text.
    Text(String),
    /// A signed integer.
    Int(i64),
    /// An unsigned integer.
    UInt(u64),
    /// A boolean.
    Bool(bool),
    /// A fixed-point decimal.
    Decimal(DecimalValue),
}

impl Value {
    /// A copy of this value.
    pub fn duplicate(&self) -> (r: Value)
        ensures
            r == *self,
    {
        match self {
            Value::Null => Value::Null,
            Value::Text(s) => Value::Text(s.clone()),
            Value::Int(n) => Value::Int(*n),
            Value::UInt(n) => Value::UInt(*n),
            Value::Bool(b) => Value::Bool(*b),
            Value::Decimal(d) => {
                proof {
                    use_type_invariant(d);
                }
                Value::Decimal(DecimalValue { mantissa: d.mantissa, scale: d.scale })
            },
        }
    }
}

/// `digits` padded with leading zeros to at least `width` characters.
pub open spec fn zero_padded(digits: Seq<char>, width: nat) -> Seq<char> {
    if digits.len() < width {
        Seq::new((width - digits.len()) as nat, |i: int| '0') + digits
    } else {
        digits
    }
}

/// What `rust_decimal::Decimal` displays for `mantissa / 10^scale`: a `-` when negative,
/// then the digits of `|mantissa|`; with a nonzero scale, the digits are zero-padded to
/// `scale` characters and `.` stands before the last `scale` of them, after a `0` when no
/// digit is left before it.
pub open spec fn decimal_display(mantissa: i128, scale: u32) -> Seq<char> {
    let digits = decimal(if mantissa < 0 { -mantissa } else { mantissa as int } as nat);
    let padded = zero_padded(digits, scale as nat);
    let whole = padded.subrange(0, padded.len() - scale);
    let frac = padded.subrange(padded.len() - scale, padded.len() as int);
    let body = if scale == 0 {
        digits
    } else {
        (if whole.len() == 0 { seq!['0'] } else { whole }) + seq!['.'] + frac
    };
    if mantissa < 0 {
        seq!['-'] + body
    } else {
        body
    }
}

/// Relies on `rust_decimal::Decimal::from_i128_with_scale`, which panics outside the range
/// that `requires` states, and on its `Display` impl for the digits.
#[verifier::external_body]
fn decimal_to_string(mantissa: i128, scale: u32) -> (r: String)
    requires
        scale <= DECIMAL_MAX_SCALE,
        -DECIMAL_MAX_MANTISSA <= mantissa <= DECIMAL_MAX_MANTISSA,
    ensures
        r@ == decimal_display(mantissa, scale),
{
    rust_decimal::Decimal::from_i128_with_scale(mantissa, scale).to_string()
}

/// The character of a decimal digit.
pub open spec fn digit_char(d: nat) -> char {
    if d == 0 { '0' }
    else if d == 1 { '1' }
    else if d == 2 { '2' }
    else if d == 3 { '3' }
    else if d == 4 { '4' }
    else if d == 5 { '5' }
    else if d == 6 { '6' }
    else if d == 7 { '7' }
    else if d == 8 { '8' }
    else { '9' }
}

/// Decimal notation of a natural number, without leading zeros.
pub open spec fn decimal(n: nat) -> Seq<char>
    decreases n,
{
    if n < 10 {
        seq![digit_char(n)]
    } else {
        decimal(n / 10) + seq![digit_char(n % 10)]
    }
}

/// Decimal notation of an integer, with a leading `-` when negative.
pub open spec fn signed_decimal(n: int) -> Seq<char> {
    if n < 0 {
        seq!['-'] + decimal((-n) as nat)
    } else {
        decimal(n as nat)
    }
}

/// `s` between single quotes.
pub open spec fn quoted(s: Seq<char>) -> Seq<char> {
    seq!['\''] + s + seq!['\'']
}

/// SQL literal text of a value: `null`, or the value's display between single quotes.
pub open spec fn value_text(v: Value) -> Seq<char> {
    match v {
        Value::Null => seq!['n', 'u', 'l', 'l'],
        Value::Text(s) => quoted(s@),
        Value::Int(n) => quoted(signed_decimal(n as int)),
        Value::UInt(n) => quoted(decimal(n as nat)),
        Value::Bool(b) => if b {
            quoted(seq!['t', 'r', 'u', 'e'])
        } else {
            quoted(seq!['f', 'a', 'l', 's', 'e'])
        },
        Value::Decimal(d) => quoted(decimal_display(d.spec_mantissa(), d.spec_scale())),
    }
}

fn digit_str(d: u64) -> (r: &'static str)
    requires
        d < 10,
    ensures
        r@ == seq![digit_char(d as nat)],
{
    match d {
        0 => { proof { reveal_strlit("0"); } "0" },
        1 => { proof { reveal_strlit("1"); } "1" },
        2 => { proof { reveal_strlit("2"); } "2" },
        3 => { proof { reveal_strlit("3"); } "3" },
        4 => { proof { reveal_strlit("4"); } "4" },
        5 => { proof { reveal_strlit("5"); } "5" },
        6 => { proof { reveal_strlit("6"); } "6" },
        7 => { proof { reveal_strlit("7"); } "7" },
        8 => { proof { reveal_strlit("8"); } "8" },
        _ => { proof { reveal_strlit("9"); } "9" },
    }
}

/// Appends the decimal notation of `n`.
pub fn write_decimal(buffer: &mut String, n: u64)
    ensures
        final(buffer)@ == old(buffer)@ + decimal(n as nat),
    decreases n,
{
    if n >= 10 {
        write_decimal(buffer, n / 10);
    }
    buffer.append(digit_str(n % 10));
}

/// Appends the SQL literal text of `v`.
pub fn write_value(buffer: &mut String, v: &Value)
    ensures
        final(buffer)@ == old(buffer)@ + value_text(*v),
{
    proof {
        reveal_strlit("'");
        reveal_strlit("null");
        reveal_strlit("true");
        reveal_strlit("false");
        reveal_strlit("-");
    }
    match v {
        Value::Null => buffer.append("null"),
        Value::Text(s) => {
            buffer.append("'");
            buffer.append(s.as_str());
            buffer.append("'");
        },
        Value::Int(n) => {
            buffer.append("'");
            if *n < 0 {
                buffer.append("-");
                let m: i128 = -(*n as i128);
                write_decimal(buffer, m as u64);
            } else {
                write_decimal(buffer, *n as u64);
            }
            buffer.append("'");
        },
        Value::UInt(n) => {
            buffer.append("'");
            write_decimal(buffer, *n);
            buffer.append("'");
        },
        Value::Bool(b) => {
            buffer.append("'");
            if *b {
                buffer.append("true");
            } else {
                buffer.append("false");
            }
            buffer.append("'");
        },
        Value::Decimal(d) => {
            proof {
                use_type_invariant(d);
            }
            let text = decimal_to_string(d.mantissa, d.scale);
            buffer.append("'");
            buffer.append(text.as_str());
            buffer.append("'");
        },
    }
    assert(buffer@ =~= old(buffer)@ + value_text(*v));
}

} // verus!
