//! The data model: one inventory record, and one summary statistic.

use crate::table::row_of_cells;
use crate::table::views_of_strings;
use crate::table::RowDisplay;
use crate::text::dec_digits;
use crate::text::digit_char;
use crate::text::digit_to_char;
use crate::text::chars_to_string;
use crate::text::push_uint;
use crate::text::uint_string;
use vstd::prelude::*;

verus! {

/// One inventory entry as handed over by the record source.
#[derive(Debug)]
pub struct Item {
    pub id: u32,
    pub name: String,
    pub item_type: String,
    pub condition: String,
    pub amount: u32,
}

/// An inventory record renders as five cells: id, name, type, condition
/// and amount, the numbers in decimal.
impl RowDisplay for Item {
    open spec fn cells(&self) -> Seq<Seq<char>> {
        seq![
            dec_digits(self.id as nat),
            self.name@,
            self.item_type@,
            self.condition@,
            dec_digits(self.amount as nat),
        ]
    }

    fn num_cols(&self) -> (n: usize) {
        5
    }

    fn to_row(&self, table_width: usize) -> (r: String) {
        let mut cells: Vec<String> = Vec::new();
        cells.push(uint_string(self.id as u128));
        cells.push(self.name.clone());
        cells.push(self.item_type.clone());
        cells.push(self.condition.clone());
        cells.push(uint_string(self.amount as u128));
        proof {
            assert(views_of_strings(cells@) =~= self.cells());
        }
        row_of_cells(&cells, table_width)
    }
}

/// The largest grand total an aggregation can reach: at most `usize::MAX`
/// records, each contributing at most `u32::MAX` to the total.
pub const MAX_GRAND_TOTAL: u128 = 0xFFFF_FFFF_FFFF_FFFF * 0xFFFF_FFFF;

/// The percentage that `numer` is of `denom`, in tenths of a percent,
/// rounded to the nearest tenth with halves rounding up.
pub open spec fn percent_tenths(numer: int, denom: int) -> int {
    (numer * 1000 + denom / 2) / denom
}

/// A percentage in tenths of a percent as text: the whole part padded
/// with zeros to two digits, one fractional digit, and a percent sign.
pub open spec fn percent_chars(t: int) -> Seq<char> {
    let whole = (t / 10) as nat;
    let frac = (t % 10) as nat;
    (if whole < 10 {
        seq!['0'] + dec_digits(whole)
    } else {
        dec_digits(whole)
    }) + seq!['.', digit_char(frac), '%']
}

/// The fraction of the grand total that one distinct condition
/// contributes: `numer / denom`, a value in `[0, 1]` held exactly as a
/// pair of integers.
#[derive(Debug)]
pub struct Stat {
    pub name: String,
    numer: u128,
    denom: u128,
}

impl Stat {
    /// A statistic is a well-defined fraction in `[0, 1]`: a positive
    /// denominator no larger than any aggregation can produce, and a
    /// numerator not above it.
    #[verifier::type_invariant]
    spec fn wf(self) -> bool {
        &&& 1 <= self.denom <= MAX_GRAND_TOTAL
        &&& self.numer <= self.denom
    }

    /// The condition this statistic speaks of.
    pub closed spec fn spec_name(&self) -> Seq<char> {
        self.name@
    }

    /// The numerator: the total amount of one condition's records.
    pub closed spec fn spec_numer(&self) -> u128 {
        self.numer
    }

    /// The denominator: the grand total amount of the whole window.
    pub closed spec fn spec_denom(&self) -> u128 {
        self.denom
    }

    /// Builds the statistic `numer / denom` for the given condition
    /// name.
    pub fn new(name: String, numer: u128, denom: u128) -> (s: Stat)
        requires
            1 <= denom <= MAX_GRAND_TOTAL,
            numer <= denom,
        ensures
            s.spec_name() == name@,
            s.spec_numer() == numer,
            s.spec_denom() == denom,
    {
        Stat { name, numer, denom }
    }

    /// The condition this statistic speaks of.
    pub fn name(&self) -> (r: &String)
        ensures
            r@ == self.spec_name(),
    {
        &self.name
    }

    /// The numerator: the total amount of one condition's records.
    pub fn numer(&self) -> (r: u128)
        ensures
            r == self.spec_numer(),
    {
        self.numer
    }

    /// The denominator: the grand total amount of the whole window.
    pub fn denom(&self) -> (r: u128)
        ensures
            r == self.spec_denom(),
    {
        self.denom
    }
}

/// A statistic renders as two cells: the condition name, and its share
/// of the grand total as a percentage with one fractional digit.
impl RowDisplay for Stat {
    open spec fn cells(&self) -> Seq<Seq<char>> {
        seq![
            self.spec_name(),
            percent_chars(percent_tenths(self.spec_numer() as int, self.spec_denom() as int)),
        ]
    }

    fn num_cols(&self) -> (n: usize) {
        2
    }

    fn to_row(&self, table_width: usize) -> (r: String) {
        proof {
            use_type_invariant(&*self);
        }
        let t = (self.numer * 1000 + self.denom / 2) / self.denom;
        proof {
            assert(t <= 1000) by {
                let n = self.numer as int;
                let d = self.denom as int;
                assert(n * 1000 + d / 2 <= 1000 * d + (d - 1)) by (nonlinear_arith)
                    requires
                        1 <= d,
                        n <= d,
                ;
                assert((n * 1000 + d / 2) / d <= 1000) by (nonlinear_arith)
                    requires
                        1 <= d,
                        n * 1000 + d / 2 <= 1000 * d + (d - 1),
                ;
            }
        }
        let whole = t / 10;
        let frac = t % 10;
        let mut buf: Vec<char> = Vec::new();
        if whole < 10 {
            buf.push('0');
        }
        push_uint(&mut buf, whole);
        buf.push('.');
        buf.push(digit_to_char(frac));
        buf.push('%');
        let percent = chars_to_string(&buf);
        proof {
            assert(percent@ =~= percent_chars(t as int));
        }
        let mut cells: Vec<String> = Vec::new();
        cells.push(self.name.clone());
        cells.push(percent);
        proof {
            assert(views_of_strings(cells@) =~= self.cells());
        }
        row_of_cells(&cells, table_width)
    }
}

} // verus!
