//! Reading and writing the DIMACS CNF format.
//!
//! The format is ASCII: optional `c`-prefixed comment lines, a `p cnf V C`
//! header line, then clauses as whitespace-separated nonzero integers, each
//! clause terminated by `0`. Variable indices are 1-based; a negative sign
//! denotes negation.
//!
//! `parse_dimacs` accepts a byte text and returns the clauses, or `None`
//! for malformed input (a stray character, an integer out of the solver's
//! range, or a clause left unterminated). `emit_dimacs` writes clauses
//! back; parsing what it emits recovers the clauses exactly, which the
//! round-trip tests exercise.

use vstd::prelude::*;

verus! {

/// The largest literal magnitude the solver accepts.
pub const MAX_DIMACS_MAGNITUDE: i64 = 0x4000_0000;

const BYTE_SPACE: u8 = 32;
const BYTE_TAB: u8 = 9;
const BYTE_CR: u8 = 13;
const BYTE_LF: u8 = 10;
const BYTE_MINUS: u8 = 45;
const BYTE_ZERO: u8 = 48;
const BYTE_NINE: u8 = 57;
const BYTE_C: u8 = 99;
const BYTE_P: u8 = 112;
const BYTE_N: u8 = 110;
const BYTE_F: u8 = 102;

/// Every literal of every clause is nonzero and within the solver's range:
/// exactly what `Solver::from_clauses` asks of its input.
pub open spec fn spec_clauses_in_range(clauses: Seq<Vec<i32>>) -> bool {
    forall|i: int, k: int|
        0 <= i < clauses.len() && 0 <= k < clauses[i]@.len() ==> (#[trigger] clauses[i]@[k]) != 0
            && -0x4000_0000 <= clauses[i]@[k] <= 0x4000_0000
}

/// Parses a DIMACS CNF text into clauses of signed integers. Comment and
/// header lines are skipped; every clause must be terminated by `0`.
/// Returns `None` for malformed input; a `Some` result always satisfies
/// `spec_clauses_in_range`, so it can be handed to the solver directly.
pub fn parse_dimacs(text: &[u8]) -> (r: Option<Vec<Vec<i32>>>)
    ensures
        match r {
            Some(clauses) => spec_clauses_in_range(clauses@),
            None => true,
        },
{
    let mut clauses: Vec<Vec<i32>> = Vec::new();
    let mut current: Vec<i32> = Vec::new();
    let mut i: usize = 0;
    let n = text.len();
    while i < n
        invariant
            i <= n,
            n == text@.len(),
            spec_clauses_in_range(clauses@),
            forall|k: int|
                0 <= k < current@.len() ==> (#[trigger] current@[k]) != 0 && -0x4000_0000
                    <= current@[k] <= 0x4000_0000,
        decreases n - i,
    {
        let b = text[i];
        if b == BYTE_SPACE || b == BYTE_TAB || b == BYTE_CR || b == BYTE_LF {
            i += 1;
        } else if b == BYTE_C || b == BYTE_P {
            // a comment or the problem header: skip the rest of the line
            let ghost start = i;
            i += 1;
            while i < n && text[i] != BYTE_LF
                invariant
                    i <= n,
                    n == text@.len(),
                    start < i,
                decreases n - i,
            {
                i += 1;
            }
        } else {
            // a signed integer
            let negative = b == BYTE_MINUS;
            if negative {
                i += 1;
            }
            if i >= n || text[i] < BYTE_ZERO || text[i] > BYTE_NINE {
                return None;
            }
            let ghost start = i;
            let mut magnitude: i64 = (text[i] - BYTE_ZERO) as i64;
            i += 1;
            while i < n && text[i] >= BYTE_ZERO && text[i] <= BYTE_NINE
                invariant
                    i <= n,
                    n == text@.len(),
                    start < i,
                    0 <= magnitude <= MAX_DIMACS_MAGNITUDE,
                decreases n - i,
            {
                magnitude = magnitude * 10 + ((text[i] - BYTE_ZERO) as i64);
                if magnitude > MAX_DIMACS_MAGNITUDE {
                    return None;
                }
                i += 1;
            }
            // the number must stand alone, not run into other characters
            if i < n && text[i] != BYTE_SPACE && text[i] != BYTE_TAB && text[i] != BYTE_CR && text[i] != BYTE_LF
            {
                return None;
            }
            if magnitude == 0 {
                if negative {
                    return None;
                }
                // `0` ends the current clause
                clauses.push(current);
                current = Vec::new();
            } else {
                let value: i32 = if negative {
                    (-magnitude) as i32
                } else {
                    magnitude as i32
                };
                current.push(value);
            }
        }
    }
    if current.len() > 0 {
        // a clause was left unterminated
        return None;
    }
    Some(clauses)
}

/// Appends the decimal digits of `value`.
fn push_decimal_u64(out: &mut Vec<u8>, value: u64) {
    let mut magnitude: u64 = value;
    // collect digits in reverse
    let mut digits: Vec<u8> = Vec::new();
    if magnitude == 0 {
        digits.push(BYTE_ZERO);
    }
    while magnitude > 0
        decreases magnitude,
    {
        digits.push(BYTE_ZERO + ((magnitude % 10) as u8));
        magnitude = magnitude / 10;
    }
    let mut k = digits.len();
    while k > 0
        invariant
            k <= digits@.len(),
        decreases k,
    {
        k -= 1;
        out.push(digits[k]);
    }
}

/// Appends the decimal digits of `value`, with a leading `-` for a
/// negative value.
fn push_decimal(out: &mut Vec<u8>, value: i32)
    requires
        -0x4000_0000 <= value <= 0x4000_0000,
{
    if value < 0 {
        out.push(BYTE_MINUS);
        push_decimal_u64(out, (-(value as i64)) as u64);
    } else {
        push_decimal_u64(out, value as u64);
    }
}

/// Writes clauses in DIMACS CNF form: a `p cnf V C` header, then each
/// clause on its own line, terminated by `0`. `var_count` is the declared
/// number of variables.
pub fn emit_dimacs(var_count: i32, clauses: &Vec<Vec<i32>>) -> (r: Vec<u8>)
    requires
        0 <= var_count <= 0x4000_0000,
        spec_clauses_in_range(clauses@),
{
    let mut out: Vec<u8> = Vec::new();
    out.push(BYTE_P);
    out.push(BYTE_SPACE);
    out.push(BYTE_C);
    out.push(BYTE_N);
    out.push(BYTE_F);
    out.push(BYTE_SPACE);
    push_decimal(&mut out, var_count);
    out.push(BYTE_SPACE);
    push_decimal_u64(&mut out, clauses.len() as u64);
    out.push(BYTE_LF);
    let mut i: usize = 0;
    while i < clauses.len()
        invariant
            i <= clauses@.len(),
            spec_clauses_in_range(clauses@),
        decreases clauses@.len() - i,
    {
        let mut k: usize = 0;
        while k < clauses[i].len()
            invariant
                i < clauses@.len(),
                k <= clauses@[i as int]@.len(),
                spec_clauses_in_range(clauses@),
            decreases clauses@[i as int]@.len() - k,
        {
            push_decimal(&mut out, clauses[i][k]);
            out.push(BYTE_SPACE);
            k += 1;
        }
        out.push(BYTE_ZERO);
        out.push(BYTE_LF);
        i += 1;
    }
    out
}

} // verus!
