use vstd::prelude::*;

verus! {

/// `std/ascii.bf`: ASCII helpers.
pub const STDLIB_ASCII: &'static str = "@doc Print the letter A, using the two cells to the right as scratch.
@fn print_A {
    >[-]>[-]++++++++[<++++++++>-]<+.[-]<
}

@doc Turn a lowercase ASCII letter in the current cell into uppercase (subtracts 32).
@fn to_upper {
    --------------------------------
}

@doc Turn an uppercase ASCII letter in the current cell into lowercase (adds 32).
@fn to_lower {
    ++++++++++++++++++++++++++++++++
}

@doc Turn an ASCII digit in the current cell into its value (subtracts 48).
@fn digit_value {
    ------------------------------------------------
}

@doc Turn a value from 0 to 9 in the current cell into its ASCII digit (adds 48).
@fn digit_char {
    ++++++++++++++++++++++++++++++++++++++++++++++++
}
";

/// `std/cli.bf`: reading command-line style arguments from input.
pub const STDLIB_CLI: &'static str = "@doc Read characters until one that is not a dash; that character stays in the current cell (0 at the end of input). Uses the three cells to the right as scratch.
@fn skip_dashes {
    ,>[-]>[-]>[-]<<+[-<[->>+>+<<<]>>>[-<<<+>>>]<--------------------
    -------------------------<+>[[-]<->]<[<[-],>->+<]>[-<+>]<]<
}

@doc Read a flag such as `-x` or `--x`: skip the dashes and leave the flag character in the current cell. Uses the three cells to the right as scratch.
@fn read_flag_char {
    @call skip_dashes
}

@doc Read a word into consecutive cells, up to a space, a newline or the end of input; the pointer ends on the zero cell just after the word. The cells from the current one on must be zero beyond the word.
@fn read_arg {
    [-]+[-,[->>+>+<<<]>>>[-<<<+>>>]<[----------[--------------------
    --[[-]<+>]]]<]<[-]
}

@doc Set the current cell to 1 if it equals the cell to its right, else to 0; the right cell is kept. Uses the two cells after it as scratch.
@fn match_char {
    >>[-]>[-]<<[->+>+<<]>>[-<<+>>]<[-<<->>]+<<[[-]>>-<<]>>[-<<+>>]<<
}

@doc Print `error: `, using the cell to the right as scratch.
@fn print_error_prefix {
    >[-]++++++++++++++++++++++++++++++++++++++++++++++++++++++++++++
    +++++++++++++++++++++++++++++++++++++++++.+++++++++++++..---.+++
    .--------------------------------------------------------.------
    --------------------.[-]<
}
";

/// `std/convert.bf`: conversions between values and their text.
pub const STDLIB_CONVERT: &'static str = "@doc Print the current cell as a decimal number without leading zeros; the cell is kept. Uses the ten cells to the right as scratch.
@fn print_decimal {
    >[-]>[-]>[-]>[-]>[-]>[-]>[-]>[-]>[-]>[-]<<<<<<<<<<[->+>+<<]>>[-<
    <+>>]<<>>++++++++++<[->-[>+>>]>[+[-<+>]>+>>]<<<<<]>[-]>>>+++++++
    +++<[->-[>+>>]>[+[-<+>]>+>>]<<<<<]>[-]>>[>[-]+<+++++++++++++++++
    +++++++++++++++++++++++++++++++.[-]]<[->>>+>+<<<<]>>>>[-<<<<+>>>
    >]<[[-]<[-]+>]<[-<<+++++++++++++++++++++++++++++++++++++++++++++
    +++.[-]>>]<<[-]<<<++++++++++++++++++++++++++++++++++++++++++++++
    ++.[-]<<<
}

@doc Print a value from 0 to 15 in the current cell as a lowercase hexadecimal digit; the cell is kept. Uses the six cells to the right as scratch.
@fn print_hex_digit {
    >[-]>[-]>[-]>[-]>[-]>[-]<<<<<<[->+>+<<]>>[-<<+>>]<<>>++++++++++<
    [->-[>+>>]>[+[-<+>]>+>>]<<<<<]>[-]>>[-<+++++++++++++++++++++++++
    ++++++++++++++++++++++++>]<+++++++++++++++++++++++++++++++++++++
    +++++++++++.[-]<<<
}

@doc Print the current cell as eight binary digits, most significant first; the cell is kept. Uses the eighteen cells to the right as scratch.
@fn print_binary_8 {
    >[-]>[-]>[-]>[-]>[-]>[-]>[-]>[-]>[-]>[-]>[-]>[-]>[-]>[-]>[-]>[-]
    >[-]>[-]<<<<<<<<<<<<<<<<<<[->+>+<<]>>[-<<+>>]<<>>+++++++++++++++
    ++++++++++++++++++++++++++++++++++++++++++++++++++++++++++++++++
    +++++++++++++++++++++++++++++++++++++++++++++++++<[->-[>+>>]>[+[
    -<+>]>+>>]<<<<<]>[-]>>++++++++++++++++++++++++++++++++++++++++++
    ++++++.[-]<>++++++++++++++++++++++++++++++++++++++++++++++++++++
    ++++++++++++<[->-[>+>>]>[+[-<+>]>+>>]<<<<<]>[-]>>+++++++++++++++
    +++++++++++++++++++++++++++++++++.[-]<>+++++++++++++++++++++++++
    +++++++<[->-[>+>>]>[+[-<+>]>+>>]<<<<<]>[-]>>++++++++++++++++++++
    ++++++++++++++++++++++++++++.[-]<>++++++++++++++++<[->-[>+>>]>[+
    [-<+>]>+>>]<<<<<]>[-]>>+++++++++++++++++++++++++++++++++++++++++
    +++++++.[-]<>++++++++<[->-[>+>>]>[+[-<+>]>+>>]<<<<<]>[-]>>++++++
    ++++++++++++++++++++++++++++++++++++++++++.[-]<>++++<[->-[>+>>]>
    [+[-<+>]>+>>]<<<<<]>[-]>>+++++++++++++++++++++++++++++++++++++++
    +++++++++.[-]<>++<[->-[>+>>]>[+[-<+>]>+>>]<<<<<]>[-]>>++++++++++
    ++++++++++++++++++++++++++++++++++++++.[-]<+++++++++++++++++++++
    +++++++++++++++++++++++++++.[-]<<<<<<<<<<<<<<<
}

@doc Turn an ASCII digit in the current cell into its value (subtracts 48).
@fn atoi_single {
    ------------------------------------------------
}

@doc Turn a value from 0 to 9 in the current cell into its ASCII digit (adds 48).
@fn itoa_single {
    ++++++++++++++++++++++++++++++++++++++++++++++++
}
";

/// `std/debug.bf`: debugging helpers.
pub const STDLIB_DEBUG: &'static str = "@doc Print a line of three dashes, using the two cells to the right as scratch.
@fn separator {
    >[-]>[-]+++++[<+++++++++>-]<...[-]<
}

@doc Print `<`, using the two cells to the right as scratch.
@fn marker_start {
    >[-]>[-]++++++[<++++++++++>-]<.[-]<
}

@doc Print `>`, using the two cells to the right as scratch.
@fn marker_end {
    >[-]>[-]++++++[<++++++++++>-]<++.[-]<
}

@doc Print the current cell as a raw byte.
@fn dump_cell {
    .
}
";

/// `std/io.bf`: input and output.
pub const STDLIB_IO: &'static str = "@doc Print a newline, using the cell to the right as scratch.
@fn print_newline {
    >[-]++++++++++.[-]<
}

@doc Print a space, using the two cells to the right as scratch.
@fn print_space {
    >[-]>[-]++++++++[<++++>-]<.[-]<
}

@doc Read one byte into the current cell.
@fn read_char {
    ,
}

@doc Print the current cell.
@fn print_char {
    .
}

@doc Read and drop input up to and including the next newline.
@fn flush_input {
    ,----------[,----------]
}

@doc Print a dash, using the two cells to the right as scratch.
@fn print_dash {
    >[-]>[-]+++++[<+++++++++>-]<.[-]<
}
";

/// `std/logic.bf`: boolean logic on the current cell.
pub const STDLIB_LOGIC: &'static str = "@doc Set the current cell to 1 if it is zero, else to 0 (uses the cell to the right).
@fn not {
    >[-]+<[[-]>-<]>[-<+>]<
}

@doc Set the current cell to 1 if it is nonzero, else to 0 (uses the cell to the right).
@fn bool {
    >[-]<[[-]>+<]>[-<+>]<
}
";

/// `std/math.bf`: arithmetic on the current cell.
pub const STDLIB_MATH: &'static str = "@doc Set the current cell to zero.
@fn zero {
    [-]
}

@doc Add one to the current cell.
@fn inc {
    +
}

@doc Subtract one from the current cell.
@fn dec {
    -
}

@doc Double the current cell (uses the cell to the right, which must be zero).
@fn double {
    [->++<]>[-<+>]<
}

@doc Triple the current cell (uses the cell to the right, which must be zero).
@fn triple {
    [->+++<]>[-<+>]<
}

@doc Add the current cell to the cell to the right, clearing the current cell.
@fn add_to_next {
    [->+<]
}

@doc Multiply the current cell by the next one into the cell after that (the fourth cell is scratch).
@fn multiply {
    [->[->+>+<<]>>[-<<+>>]<<<]
}
";

/// `std/memory.bf`: moving and copying cells.
pub const STDLIB_MEMORY: &'static str = "@doc Clear the current cell.
@fn clear {
    [-]
}

@doc Copy the current cell into the next one (the cell after it is scratch).
@fn copy_right {
    >[-]>[-]<<[->+>+<<]>>[-<<+>>]<<
}

@doc Same as copy_right.
@fn dup {
    >[-]>[-]<<[->+>+<<]>>[-<<+>>]<<
}

@doc Move the current cell into the next one.
@fn move_right {
    >[-]<[->+<]
}

@doc Swap the current cell with the next one (the cell after it is scratch).
@fn swap {
    >>[-]<<[->>+<<]>[-<+>]>[-<+>]<<
}
";

/// `std/string.bf`: text input and output.
pub const STDLIB_STRING: &'static str = "@doc Read and drop one byte.
@fn skip_char {
    ,[-]
}

@doc Read a line into consecutive cells, stopping at the newline.
@fn read_line {
    ,----------[++++++++++>,----------]
}

@doc Print consecutive cells until a zero cell.
@fn print_string {
    [.>]
}
";

} // verus!
