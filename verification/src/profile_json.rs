//! The JSON form of traces and queue-operation profiles: two-space indentation, one
//! field per line, strings escaped as JSON requires, and durations in seconds with
//! twelve decimals.
use vstd::prelude::*;

use crate::profiling::{
    duration_nanos, spec_numeric_label, spec_operation_kind_label, spec_operation_route_label,
    spec_time_source_label, CudaLaunchSpec, LaunchDimensions, ProfileDuration, TensorTypeSpec,
    TypedOperationSpec,
};
use crate::text::{byte_char, char_of_byte, chars_of, push_char, push_str};
use crate::trace::{ProfileSpan, ProfileTrace, QueueOperationProfile};
use std::time::Duration;

verus! {

// ---------------------------------------------------------------------------
// Text pieces
// ---------------------------------------------------------------------------

/// `n` spaces.
#[verifier::opaque]
pub open spec fn spaces(n: nat) -> Seq<char> {
    Seq::new(n, |i: int| ' ')
}

/// A line's end, after a comma when `comma` holds.
pub open spec fn line_end(comma: bool) -> Seq<char> {
    if comma {
        seq![',', '\n']
    } else {
        seq!['\n']
    }
}

/// The decimal digit for `d < 10`.
pub open spec fn digit_char(d: nat) -> char {
    byte_char((48 + d) as u8)
}

/// The lower-case hexadecimal digit for `d < 16`.
pub open spec fn hex_char(d: nat) -> char {
    if d < 10 {
        byte_char((48 + d) as u8)
    } else {
        byte_char((87 + d) as u8)
    }
}

/// The decimal representation of `n`, without leading zeros.
pub open spec fn decimal(n: nat) -> Seq<char>
    decreases n,
{
    if n < 10 {
        seq![digit_char(n)]
    } else {
        decimal(n / 10).push(digit_char(n % 10))
    }
}

/// True for the characters of the Unicode control category (`char::is_control`):
/// U+0000 to U+001F and U+007F to U+009F.
pub open spec fn is_control(c: char) -> bool {
    (c as u32) <= 0x1f || (0x7f <= (c as u32) && (c as u32) <= 0x9f)
}

/// One character as it stands inside a JSON string.
pub open spec fn escape_char(c: char) -> Seq<char> {
    if c == '"' {
        seq!['\\', '"']
    } else if c == '\\' {
        seq!['\\', '\\']
    } else if c == '\n' {
        seq!['\\', 'n']
    } else if c == '\r' {
        seq!['\\', 'r']
    } else if c == '\t' {
        seq!['\\', 't']
    } else if is_control(c) {
        let v = c as u32 as nat;
        seq!['\\', 'u', hex_char(v / 4096 % 16), hex_char(v / 256 % 16), hex_char(v / 16 % 16), hex_char(v % 16)]
    } else {
        seq![c]
    }
}

/// The characters of `s`, each escaped.
pub open spec fn escape_chars(s: Seq<char>) -> Seq<char>
    decreases s.len(),
{
    if s.len() == 0 {
        seq![]
    } else {
        escape_chars(s.drop_last()) + escape_char(s.last())
    }
}

/// `s` as a quoted JSON string.
#[verifier::opaque]
pub open spec fn json_string(s: Seq<char>) -> Seq<char> {
    seq!['"'] + escape_chars(s) + seq!['"']
}

/// The start of a field line: indentation, the quoted name and `": "`.
#[verifier::opaque]
pub open spec fn field_head(name: Seq<char>, indent: nat) -> Seq<char> {
    spaces(indent) + json_string(name) + seq![':', ' ']
}

/// The number of decimals a duration in seconds is written with.
pub const SECONDS_DECIMALS: usize = 12;

/// The text `{:.*}` gives, with `decimals` decimals, for a duration of `nanos`
/// nanoseconds taken as a float number of seconds.
pub uninterp spec fn seconds_text(nanos: nat, decimals: nat) -> Seq<char>;

/// Formats the duration as seconds with `decimals` decimals (`Duration::as_secs_f64`
/// written with `{:.*}`); the text depends on the duration and the decimals alone.
#[verifier::external_body]
fn duration_seconds_text(d: Duration, decimals: usize) -> (r: String)
    ensures
        r@ == seconds_text(duration_nanos(d), decimals as nat),
{
    format!("{:.*}", decimals, d.as_secs_f64())
}

// ---------------------------------------------------------------------------
// Writers of the pieces
// ---------------------------------------------------------------------------

fn push_indent(out: &mut String, indent: usize)
    ensures
        final(out)@ == old(out)@ + spaces(indent as nat),
{
    reveal(spaces);
    let mut i: usize = 0;
    while i < indent
        invariant
            i <= indent,
            out@ == old(out)@ + spaces(i as nat),
        decreases indent - i,
    {
        push_char(out, ' ');
        i = i + 1;
        proof {
            reveal(spaces);
            assert(old(out)@ + spaces(i as nat) =~= old(out)@ + spaces((i - 1) as nat) + seq![' ']);
        }
    }
}

fn push_optional_comma(out: &mut String, comma: bool)
    ensures
        final(out)@ == old(out)@ + line_end(comma),
{
    if comma {
        push_char(out, ',');
    }
    push_char(out, '\n');
    proof {
        assert(out@ =~= old(out)@ + line_end(comma));
    }
}

fn hex_digit(d: u32) -> (c: char)
    requires
        d < 16,
    ensures
        c == hex_char(d as nat),
{
    if d < 10 {
        char_of_byte((48 + d) as u8)
    } else {
        char_of_byte((87 + d) as u8)
    }
}

/// Writes `value` in decimal.
pub fn push_decimal(out: &mut String, value: u128)
    ensures
        final(out)@ == old(out)@ + decimal(value as nat),
    decreases value,
{
    if value >= 10 {
        push_decimal(out, value / 10);
    }
    let d = (value % 10) as u8;
    push_char(out, char_of_byte(48 + d));
    proof {
        if value >= 10 {
            assert(decimal(value as nat) == decimal((value / 10) as nat).push(digit_char((value % 10) as nat)));
        }
        assert(out@ =~= old(out)@ + decimal(value as nat));
    }
}

fn push_escaped_char(out: &mut String, c: char)
    ensures
        final(out)@ == old(out)@ + escape_char(c),
{
    let v = c as u32;
    if c == '"' {
        push_char(out, '\\');
        push_char(out, '"');
    } else if c == '\\' {
        push_char(out, '\\');
        push_char(out, '\\');
    } else if c == '\n' {
        push_char(out, '\\');
        push_char(out, 'n');
    } else if c == '\r' {
        push_char(out, '\\');
        push_char(out, 'r');
    } else if c == '\t' {
        push_char(out, '\\');
        push_char(out, 't');
    } else if v <= 0x1f || (0x7f <= v && v <= 0x9f) {
        push_char(out, '\\');
        push_char(out, 'u');
        push_char(out, hex_digit(v / 4096 % 16));
        push_char(out, hex_digit(v / 256 % 16));
        push_char(out, hex_digit(v / 16 % 16));
        push_char(out, hex_digit(v % 16));
    } else {
        push_char(out, c);
    }
    proof {
        assert(out@ =~= old(out)@ + escape_char(c));
    }
}

/// Writes `value` as a quoted JSON string.
pub fn push_json_string(out: &mut String, value: &str)
    ensures
        final(out)@ == old(out)@ + json_string(value@),
{
    reveal(json_string);
    let chars = chars_of(value);
    push_char(out, '"');
    let mut i: usize = 0;
    while i < chars.len()
        invariant
            i <= chars@.len(),
            chars@ == value@,
            out@ == old(out)@ + seq!['"'] + escape_chars(chars@.take(i as int)),
        decreases chars@.len() - i,
    {
        push_escaped_char(out, chars[i]);
        proof {
            assert(chars@.take(i + 1).drop_last() =~= chars@.take(i as int));
            assert(chars@.take(i + 1).last() == chars@[i as int]);
        }
        i = i + 1;
    }
    push_char(out, '"');
    proof {
        assert(chars@.take(chars@.len() as int) =~= chars@);
        assert(out@ =~= old(out)@ + json_string(value@));
    }
}

fn push_field_head(out: &mut String, name: &str, indent: usize)
    ensures
        final(out)@ == old(out)@ + field_head(name@, indent as nat),
{
    reveal(field_head);
    push_indent(out, indent);
    push_json_string(out, name);
    push_char(out, ':');
    push_char(out, ' ');
    proof {
        assert(out@ =~= old(out)@ + field_head(name@, indent as nat));
    }
}

/// The text a duration is written as: seconds with `SECONDS_DECIMALS` decimals.
pub open spec fn duration_text(d: ProfileDuration) -> Seq<char> {
    seconds_text(d.nanos(), SECONDS_DECIMALS as nat)
}

fn push_seconds(out: &mut String, d: ProfileDuration)
    ensures
        final(out)@ == old(out)@ + duration_text(d),
{
    let text = duration_seconds_text(d.as_duration(), SECONDS_DECIMALS);
    push_str(out, text.as_str());
}

// ---------------------------------------------------------------------------
// Fields
// ---------------------------------------------------------------------------

#[verifier::opaque]
pub open spec fn string_field(name: Seq<char>, value: Seq<char>, indent: nat, comma: bool) -> Seq<char> {
    field_head(name, indent) + json_string(value) + line_end(comma)
}

fn push_string_field(out: &mut String, name: &str, value: &str, indent: usize, comma: bool)
    ensures
        final(out)@ == old(out)@ + string_field(name@, value@, indent as nat, comma),
{
    reveal(string_field);
    push_field_head(out, name, indent);
    push_json_string(out, value);
    push_optional_comma(out, comma);
    proof {
        assert(out@ =~= old(out)@ + string_field(name@, value@, indent as nat, comma));
    }
}

#[verifier::opaque]
pub open spec fn seconds_field(name: Seq<char>, d: ProfileDuration, indent: nat, comma: bool) -> Seq<char> {
    field_head(name, indent) + duration_text(d) + line_end(comma)
}

fn push_seconds_field(out: &mut String, name: &str, d: ProfileDuration, indent: usize, comma: bool)
    ensures
        final(out)@ == old(out)@ + seconds_field(name@, d, indent as nat, comma),
{
    reveal(seconds_field);
    push_field_head(out, name, indent);
    push_seconds(out, d);
    push_optional_comma(out, comma);
    proof {
        assert(out@ =~= old(out)@ + seconds_field(name@, d, indent as nat, comma));
    }
}

#[verifier::opaque]
pub open spec fn number_field(name: Seq<char>, value: nat, indent: nat, comma: bool) -> Seq<char> {
    field_head(name, indent) + decimal(value) + line_end(comma)
}

fn push_number_field(out: &mut String, name: &str, value: u128, indent: usize, comma: bool)
    ensures
        final(out)@ == old(out)@ + number_field(name@, value as nat, indent as nat, comma),
{
    reveal(number_field);
    push_field_head(out, name, indent);
    push_decimal(out, value);
    push_optional_comma(out, comma);
    proof {
        assert(out@ =~= old(out)@ + number_field(name@, value as nat, indent as nat, comma));
    }
}

#[verifier::opaque]
pub open spec fn optional_number_field(name: Seq<char>, value: Option<usize>, indent: nat, comma: bool) -> Seq<char> {
    field_head(name, indent) + match value {
        Some(v) => decimal(v as nat),
        None => "null"@,
    } + line_end(comma)
}

fn push_optional_number_field(out: &mut String, name: &str, value: Option<usize>, indent: usize, comma: bool)
    ensures
        final(out)@ == old(out)@ + optional_number_field(name@, value, indent as nat, comma),
{
    reveal(optional_number_field);
    push_field_head(out, name, indent);
    match value {
        Some(v) => push_decimal(out, v as u128),
        None => push_str(out, "null"),
    }
    push_optional_comma(out, comma);
    proof {
        assert(out@ =~= old(out)@ + optional_number_field(name@, value, indent as nat, comma));
    }
}

/// `[a, b, c]`.
#[verifier::opaque]
pub open spec fn usize_array(values: Seq<usize>) -> Seq<char> {
    seq!['['] + usize_items(values) + seq![']']
}

pub open spec fn usize_items(values: Seq<usize>) -> Seq<char>
    decreases values.len(),
{
    if values.len() == 0 {
        seq![]
    } else if values.len() == 1 {
        decimal(values[0] as nat)
    } else {
        usize_items(values.drop_last()) + seq![',', ' '] + decimal(values.last() as nat)
    }
}

fn push_usize_array(out: &mut String, values: &[usize])
    ensures
        final(out)@ == old(out)@ + usize_array(values@),
{
    reveal(usize_array);
    push_char(out, '[');
    let mut i: usize = 0;
    while i < values.len()
        invariant
            i <= values@.len(),
            out@ == old(out)@ + seq!['['] + usize_items(values@.take(i as int)),
        decreases values@.len() - i,
    {
        if i > 0 {
            push_char(out, ',');
            push_char(out, ' ');
        }
        push_decimal(out, values[i] as u128);
        proof {
            let t = values@.take(i + 1);
            assert(t.drop_last() =~= values@.take(i as int));
            assert(t.last() == values@[i as int]);
            if i == 0 {
                assert(t.len() == 1 && t[0] == values@[0]);
                assert(values@.take(0) =~= Seq::<usize>::empty());
            }
        }
        i = i + 1;
    }
    push_char(out, ']');
    proof {
        assert(values@.take(values@.len() as int) =~= values@);
        assert(out@ =~= old(out)@ + usize_array(values@));
    }
}

// ---------------------------------------------------------------------------
// Launches, tensors and operations
// ---------------------------------------------------------------------------

#[verifier::opaque]
pub open spec fn launch_dim_field(name: Seq<char>, dim: LaunchDimensions, indent: nat, comma: bool) -> Seq<char> {
    spaces(indent) + json_string(name) + ": {\"x\": "@ + decimal(dim.x as nat) + ", \"y\": "@ + decimal(dim.y as nat)
        + ", \"z\": "@ + decimal(dim.z as nat) + "}"@ + line_end(comma)
}

fn push_launch_dim_field(out: &mut String, name: &str, dim: LaunchDimensions, indent: usize, comma: bool)
    ensures
        final(out)@ == old(out)@ + launch_dim_field(name@, dim, indent as nat, comma),
{
    reveal(launch_dim_field);
    push_indent(out, indent);
    push_json_string(out, name);
    push_str(out, ": {\"x\": ");
    push_decimal(out, dim.x as u128);
    push_str(out, ", \"y\": ");
    push_decimal(out, dim.y as u128);
    push_str(out, ", \"z\": ");
    push_decimal(out, dim.z as u128);
    push_str(out, "}");
    push_optional_comma(out, comma);
    proof {
        assert(out@ =~= old(out)@ + launch_dim_field(name@, dim, indent as nat, comma));
    }
}

#[verifier::opaque]
pub open spec fn launch_field(name: Seq<char>, launch: Option<CudaLaunchSpec>, indent: nat, comma: bool) -> Seq<char> {
    field_head(name, indent) + match launch {
        Some(l) => "{\n"@ + string_field("kernel"@, l.kernel@, indent + 2, true) + launch_dim_field(
            "grid_dim"@,
            l.grid_dim,
            indent + 2,
            true,
        ) + launch_dim_field("block_dim"@, l.block_dim, indent + 2, true) + number_field(
            "shared_mem_bytes"@,
            l.shared_mem_bytes as nat,
            indent + 2,
            false,
        ) + spaces(indent) + "}"@,
        None => "null"@,
    } + line_end(comma)
}

fn push_launch_field(out: &mut String, name: &str, launch: Option<&CudaLaunchSpec>, indent: usize, comma: bool)
    requires
        indent + 2 <= usize::MAX,
    ensures
        final(out)@ == old(out)@ + launch_field(
            name@,
            match launch {
                Some(l) => Some(*l),
                None => None,
            },
            indent as nat,
            comma,
        ),
{
    reveal(launch_field);
    push_field_head(out, name, indent);
    match launch {
        Some(l) => {
            push_str(out, "{\n");
            push_string_field(out, "kernel", l.kernel.as_str(), indent + 2, true);
            push_launch_dim_field(out, "grid_dim", l.grid_dim, indent + 2, true);
            push_launch_dim_field(out, "block_dim", l.block_dim, indent + 2, true);
            push_number_field(out, "shared_mem_bytes", l.shared_mem_bytes as u128, indent + 2, false);
            push_indent(out, indent);
            push_str(out, "}");
        },
        None => push_str(out, "null"),
    }
    push_optional_comma(out, comma);
    proof {
        assert(out@ =~= old(out)@ + launch_field(
            name@,
            match launch {
                Some(l) => Some(*l),
                None => None,
            },
            indent as nat,
            comma,
        ));
    }
}

/// One tensor description as an inline JSON object.
#[verifier::opaque]
pub open spec fn tensor_object(spec: TensorTypeSpec) -> Seq<char> {
    "{\"dtype\": "@ + json_string(spec_numeric_label(spec.dtype)) + ", \"accumulator\": "@ + json_string(
        spec_numeric_label(spec.accumulator),
    ) + ", \"shape\": "@ + usize_array(spec.shape@) + ", \"layout\": "@ + match spec.layout {
        Some(l) => json_string(l@),
        None => "null"@,
    } + "}"@
}

pub open spec fn tensor_items(specs: Seq<TensorTypeSpec>) -> Seq<char>
    decreases specs.len(),
{
    if specs.len() == 0 {
        seq![]
    } else if specs.len() == 1 {
        tensor_object(specs[0])
    } else {
        tensor_items(specs.drop_last()) + ", "@ + tensor_object(specs.last())
    }
}

#[verifier::opaque]
pub open spec fn tensors_field(name: Seq<char>, specs: Seq<TensorTypeSpec>, indent: nat, comma: bool) -> Seq<char> {
    field_head(name, indent) + "["@ + tensor_items(specs) + "]"@ + line_end(comma)
}

fn push_tensor_object(out: &mut String, spec: &TensorTypeSpec)
    ensures
        final(out)@ == old(out)@ + tensor_object(*spec),
{
    reveal(tensor_object);
    push_str(out, "{\"dtype\": ");
    push_json_string(out, spec.dtype.label());
    push_str(out, ", \"accumulator\": ");
    push_json_string(out, spec.accumulator.label());
    push_str(out, ", \"shape\": ");
    push_usize_array(out, spec.shape.as_slice());
    push_str(out, ", \"layout\": ");
    match &spec.layout {
        Some(layout) => push_json_string(out, layout.as_str()),
        None => push_str(out, "null"),
    }
    push_str(out, "}");
    proof {
        assert(out@ =~= old(out)@ + tensor_object(*spec));
    }
}

fn push_tensors_field(out: &mut String, name: &str, specs: &[TensorTypeSpec], indent: usize, comma: bool)
    ensures
        final(out)@ == old(out)@ + tensors_field(name@, specs@, indent as nat, comma),
{
    reveal(tensors_field);
    push_field_head(out, name, indent);
    push_str(out, "[");
    let ghost head = out@;
    let mut i: usize = 0;
    while i < specs.len()
        invariant
            i <= specs@.len(),
            out@ == head + tensor_items(specs@.take(i as int)),
        decreases specs@.len() - i,
    {
        if i > 0 {
            push_str(out, ", ");
        }
        push_tensor_object(out, &specs[i]);
        proof {
            let t = specs@.take(i + 1);
            assert(t.drop_last() =~= specs@.take(i as int));
            assert(t.last() == specs@[i as int]);
            if i == 0 {
                assert(t.len() == 1 && t[0] == specs@[0]);
                assert(specs@.take(0) =~= Seq::<TensorTypeSpec>::empty());
            }
        }
        i = i + 1;
    }
    push_str(out, "]");
    push_optional_comma(out, comma);
    proof {
        assert(specs@.take(specs@.len() as int) =~= specs@);
        assert(out@ =~= old(out)@ + tensors_field(name@, specs@, indent as nat, comma));
    }
}

/// An operation as a JSON object whose lines are indented by `indent + 2` spaces.
#[verifier::opaque]
pub open spec fn operation_object(op: TypedOperationSpec, indent: nat) -> Seq<char> {
    "{\n"@ + string_field("name"@, op.name@, indent + 2, true) + string_field(
        "kind"@,
        spec_operation_kind_label(op.kind),
        indent + 2,
        true,
    ) + string_field("route"@, spec_operation_route_label(op.route), indent + 2, true) + tensors_field(
        "inputs"@,
        op.inputs@,
        indent + 2,
        true,
    ) + tensors_field("outputs"@, op.outputs@, indent + 2, true) + launch_field(
        "launch"@,
        op.launch,
        indent + 2,
        false,
    ) + spaces(indent) + "}"@
}

#[verifier::opaque]
pub open spec fn operation_field(name: Seq<char>, operation: Option<TypedOperationSpec>, indent: nat, comma: bool) -> Seq<char> {
    field_head(name, indent) + match operation {
        Some(op) => operation_object(op, indent),
        None => "null"@,
    } + line_end(comma)
}

fn push_operation_object(out: &mut String, op: &TypedOperationSpec, indent: usize)
    requires
        indent + 4 <= usize::MAX,
    ensures
        final(out)@ == old(out)@ + operation_object(*op, indent as nat),
{
    reveal(operation_object);
    let mut s = String::new();
    push_str(&mut s, "{\n");
    proof {
        assert(s@ =~= "{\n"@);
    }
    push_string_field(&mut s, "name", op.name.as_str(), indent + 2, true);
    push_string_field(&mut s, "kind", op.kind.label(), indent + 2, true);
    push_string_field(&mut s, "route", op.route.label(), indent + 2, true);
    push_tensors_field(&mut s, "inputs", op.inputs.as_slice(), indent + 2, true);
    push_tensors_field(&mut s, "outputs", op.outputs.as_slice(), indent + 2, true);
    push_launch_field(&mut s, "launch", op.launch.as_ref(), indent + 2, false);
    push_indent(&mut s, indent);
    push_str(&mut s, "}");
    push_str(out, s.as_str());
}

fn push_operation_field(out: &mut String, name: &str, operation: Option<&TypedOperationSpec>, indent: usize, comma: bool)
    requires
        indent + 4 <= usize::MAX,
    ensures
        final(out)@ == old(out)@ + operation_field(
            name@,
            match operation {
                Some(op) => Some(*op),
                None => None,
            },
            indent as nat,
            comma,
        ),
{
    reveal(operation_field);
    push_field_head(out, name, indent);
    match operation {
        Some(op) => push_operation_object(out, op, indent),
        None => push_str(out, "null"),
    }
    push_optional_comma(out, comma);
    proof {
        assert(out@ =~= old(out)@ + operation_field(
            name@,
            match operation {
                Some(op) => Some(*op),
                None => None,
            },
            indent as nat,
            comma,
        ));
    }
}

// ---------------------------------------------------------------------------
// Spans, traces and queue operations
// ---------------------------------------------------------------------------

/// One span as a JSON object, starting at `indent` spaces.
#[verifier::opaque]
pub open spec fn span_json(span: ProfileSpan, indent: nat) -> Seq<char> {
    spaces(indent) + "{\n"@ + number_field("id"@, span.id as nat, indent + 2, true) + optional_number_field(
        "parent_id"@,
        span.parent_id,
        indent + 2,
        true,
    ) + string_field("name"@, span.name@, indent + 2, true) + string_field(
        "category"@,
        span.category@,
        indent + 2,
        true,
    ) + string_field("source"@, spec_time_source_label(span.source), indent + 2, true) + seconds_field(
        "start_seconds"@,
        span.start_offset,
        indent + 2,
        true,
    ) + seconds_field("duration_seconds"@, span.duration, indent + 2, true) + seconds_field(
        "self_seconds"@,
        span.self_duration,
        indent + 2,
        true,
    ) + operation_field("operation"@, span.operation, indent + 2, false) + spaces(indent) + "}"@
}

fn push_span_json(out: &mut String, span: &ProfileSpan, indent: usize)
    requires
        indent + 6 <= usize::MAX,
    ensures
        final(out)@ == old(out)@ + span_json(*span, indent as nat),
{
    reveal(span_json);
    let mut s = String::new();
    push_indent(&mut s, indent);
    proof {
        assert(s@ =~= spaces(indent as nat));
    }
    push_str(&mut s, "{\n");
    push_number_field(&mut s, "id", span.id as u128, indent + 2, true);
    push_optional_number_field(&mut s, "parent_id", span.parent_id, indent + 2, true);
    push_string_field(&mut s, "name", span.name.as_str(), indent + 2, true);
    push_string_field(&mut s, "category", span.category.as_str(), indent + 2, true);
    push_string_field(&mut s, "source", span.source.label(), indent + 2, true);
    push_seconds_field(&mut s, "start_seconds", span.start_offset, indent + 2, true);
    push_seconds_field(&mut s, "duration_seconds", span.duration, indent + 2, true);
    push_seconds_field(&mut s, "self_seconds", span.self_duration, indent + 2, true);
    push_operation_field(&mut s, "operation", span.operation.as_ref(), indent + 2, false);
    push_indent(&mut s, indent);
    push_str(&mut s, "}");
    push_str(out, s.as_str());
}

/// The spans as JSON objects separated by `",\n"`.
pub open spec fn span_items(spans: Seq<ProfileSpan>, indent: nat) -> Seq<char>
    decreases spans.len(),
{
    if spans.len() == 0 {
        seq![]
    } else if spans.len() == 1 {
        span_json(spans[0], indent)
    } else {
        span_items(spans.drop_last(), indent) + ",\n"@ + span_json(spans.last(), indent)
    }
}

/// A trace as a JSON object, starting at `indent` spaces.
#[verifier::opaque]
pub open spec fn trace_json(trace: ProfileTrace, indent: nat) -> Seq<char> {
    spaces(indent) + "{\n"@ + string_field("name"@, trace.name@, indent + 2, true) + seconds_field(
        "total_seconds"@,
        trace.total,
        indent + 2,
        true,
    ) + spaces(indent + 2) + "\"spans\": [\n"@ + span_items(trace.spans@, indent + 4) + "\n"@ + spaces(
        indent + 2,
    ) + "]\n"@ + spaces(indent) + "}"@
}

impl ProfileTrace {
    /// Writes the trace as a JSON object starting at `indent` spaces.
    pub fn push_json(&self, out: &mut String, indent: usize)
        requires
            indent + 10 <= usize::MAX,
        ensures
            final(out)@ == old(out)@ + trace_json(*self, indent as nat),
    {
        reveal(trace_json);
        let mut s = String::new();
        push_indent(&mut s, indent);
        proof {
            assert(s@ =~= spaces(indent as nat));
        }
        push_str(&mut s, "{\n");
        push_string_field(&mut s, "name", self.name.as_str(), indent + 2, true);
        push_seconds_field(&mut s, "total_seconds", self.total, indent + 2, true);
        push_indent(&mut s, indent + 2);
        push_str(&mut s, "\"spans\": [\n");
        let ghost head = s@;
        let mut i: usize = 0;
        while i < self.spans.len()
            invariant
                indent + 10 <= usize::MAX,
                i <= self.spans@.len(),
                s@ == head + span_items(self.spans@.take(i as int), (indent + 4) as nat),
            decreases self.spans@.len() - i,
        {
            if i > 0 {
                push_str(&mut s, ",\n");
            }
            push_span_json(&mut s, &self.spans[i], indent + 4);
            proof {
                let t = self.spans@.take(i + 1);
                assert(t.drop_last() =~= self.spans@.take(i as int));
                assert(t.last() == self.spans@[i as int]);
                if i == 0 {
                    assert(t.len() == 1 && t[0] == self.spans@[0]);
                    assert(self.spans@.take(0) =~= Seq::<ProfileSpan>::empty());
                }
            }
            i = i + 1;
        }
        push_str(&mut s, "\n");
        push_indent(&mut s, indent + 2);
        push_str(&mut s, "]\n");
        push_indent(&mut s, indent);
        push_str(&mut s, "}");
        proof {
            assert(self.spans@.take(self.spans@.len() as int) =~= self.spans@);
        }
        push_str(out, s.as_str());
    }

    /// The trace as a JSON document: the object at indentation zero and a newline.
    pub fn to_json_string(&self) -> (r: String)
        ensures
            r@ == trace_json(*self, 0) + "\n"@,
    {
        let mut out = String::new();
        self.push_json(&mut out, 0);
        push_str(&mut out, "\n");
        proof {
            assert(out@ =~= trace_json(*self, 0) + "\n"@);
        }
        out
    }
}

/// A queue-operation profile as a JSON object, starting at `indent` spaces.
#[verifier::opaque]
pub open spec fn queue_operation_json(p: QueueOperationProfile, indent: nat) -> Seq<char> {
    spaces(indent) + "{\n"@ + number_field("worker_index"@, p.worker_index as nat, indent + 2, true)
        + operation_field("operation"@, Some(p.operation), indent + 2, true) + seconds_field(
        "send_wait_seconds"@,
        p.send_wait,
        indent + 2,
        true,
    ) + seconds_field("queue_to_worker_seconds"@, p.queue_to_worker, indent + 2, true) + seconds_field(
        "worker_execute_seconds"@,
        p.worker_execute,
        indent + 2,
        true,
    ) + seconds_field("completion_wait_seconds"@, p.completion_wait, indent + 2, true) + seconds_field(
        "total_seconds"@,
        p.total,
        indent + 2,
        false,
    ) + spaces(indent) + "}"@
}

impl QueueOperationProfile {
    /// Writes the profile as a JSON object starting at `indent` spaces.
    pub fn push_json(&self, out: &mut String, indent: usize)
        requires
            indent + 6 <= usize::MAX,
        ensures
            final(out)@ == old(out)@ + queue_operation_json(*self, indent as nat),
    {
        reveal(queue_operation_json);
        let mut s = String::new();
        push_indent(&mut s, indent);
        proof {
            assert(s@ =~= spaces(indent as nat));
        }
        push_str(&mut s, "{\n");
        push_number_field(&mut s, "worker_index", self.worker_index as u128, indent + 2, true);
        push_operation_field(&mut s, "operation", Some(&self.operation), indent + 2, true);
        push_seconds_field(&mut s, "send_wait_seconds", self.send_wait, indent + 2, true);
        push_seconds_field(&mut s, "queue_to_worker_seconds", self.queue_to_worker, indent + 2, true);
        push_seconds_field(&mut s, "worker_execute_seconds", self.worker_execute, indent + 2, true);
        push_seconds_field(&mut s, "completion_wait_seconds", self.completion_wait, indent + 2, true);
        push_seconds_field(&mut s, "total_seconds", self.total, indent + 2, false);
        push_indent(&mut s, indent);
        push_str(&mut s, "}");
        push_str(out, s.as_str());
    }
}

} // verus!
