//! The fixed symbol palette: each escape count maps to one display character,
//! and a grid row maps to the row of characters a text display prints.

use vstd::prelude::*;

verus! {

/// The display character owed for an escape count: a fixed ordered bucketing,
/// with the blank reserved for the count that marks set membership under the
/// canonical cap of one thousand.
pub open spec fn spec_symbol(count: nat) -> char {
    if count <= 2 {
        '¸'
    } else if count <= 5 {
        '.'
    } else if count <= 10 {
        '•'
    } else if count <= 30 {
        '›'
    } else if count <= 100 {
        '-'
    } else if count <= 200 {
        '˛'
    } else if count <= 400 {
        '˙'
    } else if count <= 700 {
        '˛'
    } else if count <= 800 {
        '‘'
    } else if count <= 900 {
        '¨'
    } else if count <= 999 {
        '¸'
    } else if count == 1000 {
        ' '
    } else {
        '!'
    }
}

/// The display character for one escape count.
pub fn symbol_for(count: usize) -> (symbol: char)
    ensures
        symbol == spec_symbol(count as nat),
{
    if count <= 2 {
        '¸'
    } else if count <= 5 {
        '.'
    } else if count <= 10 {
        '•'
    } else if count <= 30 {
        '›'
    } else if count <= 100 {
        '-'
    } else if count <= 200 {
        '˛'
    } else if count <= 400 {
        '˙'
    } else if count <= 700 {
        '˛'
    } else if count <= 800 {
        '‘'
    } else if count <= 900 {
        '¨'
    } else if count <= 999 {
        '¸'
    } else if count == 1000 {
        ' '
    } else {
        '!'
    }
}

/// The characters of one grid row, in cell order: cell by cell, the row's
/// counts pass through the symbol palette.
pub fn render_row(row: &Vec<usize>) -> (line: Vec<char>)
    ensures
        line@.len() == row@.len(),
        forall|i: int|
            0 <= i < row@.len() ==> #[trigger] line@[i] == spec_symbol(row@[i] as nat),
{
    let mut line: Vec<char> = Vec::new();
    let mut i: usize = 0;
    while i < row.len()
        invariant
            i <= row@.len(),
            line@.len() == i,
            forall|j: int|
                0 <= j < i ==> #[trigger] line@[j] == spec_symbol(row@[j] as nat),
        decreases row@.len() - i,
    {
        let symbol = symbol_for(row[i]);
        line.push(symbol);
        i = i + 1;
    }
    line
}

} // verus!
