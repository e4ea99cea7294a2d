//! The registry of system symbols: the names that stay unqualified.

use crate::text::same_text;
use vstd::prelude::*;

verus! {

/// The names of the system context, in rows of six.
pub const SYSTEM_SYMBOLS: [[&'static str; 6]; 47] = [
    ["Abs", "All", "Alternatives", "And", "Apply", "ArcCos"],
    ["ArcSin", "ArcTan", "Array", "ArrayDepth", "Association", "AssociationMap"],
    ["AssociationQ", "Attributes", "Automatic", "BinaryDeserialize", "BinarySerialize", "Blank"],
    ["BlankNullSequence", "BlankSequence", "Block", "Boole", "Booleans", "Break"],
    ["ByteArray", "Catch", "Ceiling", "Characters", "Check", "Circle"],
    ["Clear", "Compile", "Complex", "ComplexInfinity", "Complexes", "Compress"],
    ["Condition", "Conjugate", "Constant", "Context", "Continue", "Cos"],
    ["Cosh", "Cot", "Count", "DateObject", "DateString", "Default"],
    ["Delete", "DeleteCases", "DeleteDuplicates", "Denominator", "Derivative", "Det"],
    ["Dimensions", "DirectedInfinity", "Disk", "Divide", "Do", "Dot"],
    ["Drop", "E", "Element", "Ellipse", "Equal", "Evaluate"],
    ["EvenQ", "Except", "Exp", "Expand", "Export", "Extract"],
    ["Factor", "Factorial", "False", "File", "First", "Fit"],
    ["Flat", "Flatten", "Floor", "Fold", "For", "Format"],
    ["FreeQ", "FromDigits", "FullForm", "Function", "GCD", "Graphics"],
    ["Greater", "GreaterEqual", "Head", "Hold", "HoldAll", "HoldComplete"],
    ["HoldFirst", "HoldForm", "HoldPattern", "HoldRest", "I", "Identity"],
    ["If", "Im", "Import", "Indeterminate", "Infinity", "Information"],
    ["Inner", "Insert", "Integer", "IntegerDigits", "Integers", "Integrate"],
    ["Interpretation", "Intersection", "Inverse", "Join", "Key", "KeyValueMap"],
    ["Keys", "LCM", "Last", "Length", "Less", "LessEqual"],
    ["Limit", "Line", "List", "Listable", "Log", "Lookup"],
    ["Map", "MapAt", "MapIndexed", "MapThread", "MatchQ", "Max"],
    ["Mean", "MemberQ", "Message", "MessageName", "Min", "Missing"],
    ["Mod", "Module", "Most", "N", "Neg", "Negative"],
    ["Nest", "NestList", "None", "Normal", "Not", "Nothing"],
    ["Null", "NumberQ", "Numerator", "NumericArray", "NumericQ", "OddQ"],
    ["Optional", "Options", "Or", "Order", "OrderedQ", "Orderless"],
    ["Out", "Outer", "Part", "Partition", "Pattern", "PatternTest"],
    ["Pi", "Piecewise", "Plot", "Plus", "Point", "Polygon"],
    ["Position", "Positive", "Power", "Prepend", "Print", "Product"],
    ["Protect", "Protected", "Quantity", "Quiet", "Quotient", "RGBColor"],
    ["Random", "RandomInteger", "RandomReal", "Range", "Rational", "Rationals"],
    ["Re", "Real", "Reals", "Reap", "Rectangle", "Remove"],
    ["Repeated", "RepeatedNull", "Replace", "ReplaceAll", "ReplacePart", "ReplaceRepeated"],
    ["Rest", "Return", "Reverse", "Riffle", "Round", "Rule"],
    ["RuleDelayed", "SameQ", "Scan", "Select", "Sequence", "Series"],
    ["Set", "SetAttributes", "SetDelayed", "Sign", "Simplify", "Sin"],
    ["Sinh", "Slot", "SlotSequence", "Solve", "Sort", "SortBy"],
    ["Sow", "Span", "Sqrt", "String", "StringJoin", "StringLength"],
    ["StringQ", "StringReplace", "StringSplit", "Subtract", "Sum", "Switch"],
    ["Symbol", "SymbolName", "Table", "Take", "Tally", "Tan"],
    ["Tanh", "Temporary", "Text", "Thread", "Through", "Throw"],
    ["TimeObject", "Times", "Timing", "ToExpression", "ToString", "Together"],
    ["Total", "Transpose", "True", "TrueQ", "Unequal", "Unevaluated"],
    ["Union", "Unprotect", "UnsameQ", "Unset", "UpSet", "UpSetDelayed"],
    ["Values", "Verbatim", "Which", "While", "With", "Xor"],
];

/// Tells whether the registry lists a name.
pub open spec fn is_system_name(name: Seq<char>) -> bool {
    exists|row: int, column: int|
        0 <= row < SYSTEM_SYMBOLS@.len() && 0 <= column < 6 && listed(row, column) == name
}

/// The name at a place of the registry.
pub open spec fn listed(row: int, column: int) -> Seq<char> {
    SYSTEM_SYMBOLS@[row]@[column]@
}

/// Tells whether the registry lists a name.
pub fn is_system_symbol(name: &str) -> (r: bool)
    ensures
        r == is_system_name(name@),
{
    let mut row: usize = 0;
    while row < SYSTEM_SYMBOLS.len()
        invariant
            row <= SYSTEM_SYMBOLS@.len(),
            forall|i: int, j: int| 0 <= i < row && 0 <= j < 6 ==> #[trigger] listed(i, j) != name@,
        decreases SYSTEM_SYMBOLS@.len() - row,
    {
        let names = &SYSTEM_SYMBOLS[row];
        let mut column: usize = 0;
        while column < 6
            invariant
                column <= 6,
                row < SYSTEM_SYMBOLS@.len(),
                names@ == SYSTEM_SYMBOLS@[row as int]@,
                forall|i: int, j: int|
                    0 <= i < row && 0 <= j < 6 ==> #[trigger] listed(i, j) != name@,
                forall|j: int| 0 <= j < column ==> #[trigger] listed(row as int, j) != name@,
            decreases 6 - column,
        {
            if same_text(names[column], name) {
                assert(listed(row as int, column as int) == name@);
                return true;
            }
            column += 1;
        }
        row += 1;
    }
    false
}

} // verus!
