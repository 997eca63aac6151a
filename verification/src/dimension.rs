//! Width and height of an image or of a monitor.

use crate::config::Config;
use crate::decimal::{
    decimal, decimal_width, is_digit, lemma_decimal_digits, lemma_parse_decimal_round_trip,
    parse_decimal_spec, parse_u64, u64_to_string, ParseIntError,
};
use crate::error::{
    DimensionError, DimensionErrorView, WallSwitchError, WallSwitchErrorView, WallSwitchResult,
};
use crate::text::{
    has_no_separator, lemma_split_pair, pad_left, pad_left_spec, split, split_spec, texts, trim,
    trim_end_spec, trim_spec, trim_start_spec,
};
use crate::traits::{painted, Colors, GREEN, YELLOW};
use vstd::prelude::*;
use vstd::string::StringExecFns;

verus! {

/// Width and height, in pixels.
#[derive(Debug, Clone, Copy, PartialEq, Eq, Structural, PartialOrd, Ord, Hash)]
pub struct Dimension {
    pub width: u64,
    pub height: u64,
}

impl Default for Dimension {
    /// 4K UHD.
    fn default() -> (r: Dimension)
        ensures
            r == (Dimension { width: 3840, height: 2160 }),
    {
        Dimension { width: 3840, height: 2160 }
    }
}

/// The number that one component of a dimension text denotes.
pub open spec fn component_spec(token: Seq<char>) -> Result<nat, ParseIntError> {
    parse_decimal_spec(trim_spec(token), u64::MAX as nat)
}

/// The numbers that the tokens denote, or the failure of the first token
/// that denotes none.
pub open spec fn components_spec(tokens: Seq<Seq<char>>) -> Result<Seq<u64>, ParseIntError>
    decreases tokens.len(),
{
    if tokens.len() == 0 {
        Ok(Seq::<u64>::empty())
    } else {
        match components_spec(tokens.drop_last()) {
            Err(e) => Err(e),
            Ok(numbers) => match component_spec(tokens.last()) {
                Err(e) => Err(e),
                Ok(n) => Ok(numbers.push(n as u64)),
            },
        }
    }
}

/// What a text of the form `<width>x<height>` denotes: its components are
/// cut at each `x` and read as decimal numbers, white space around them
/// left aside. There must be two of them, and none may be zero.
pub open spec fn split_str_spec(text: Seq<char>) -> Result<Seq<u64>, DimensionErrorView> {
    match components_spec(split_spec(text, 'x', 'x')) {
        Err(e) => Err(DimensionErrorView::InvalidParse(text, e)),
        Ok(numbers) => if numbers.len() != 2 {
            Err(DimensionErrorView::InvalidFormat)
        } else if numbers[0] == 0 || numbers[1] == 0 {
            Err(DimensionErrorView::ZeroDimension)
        } else {
            Ok(numbers)
        },
    }
}

/// Failing components fail the whole.
proof fn lemma_components_fail(tokens: Seq<Seq<char>>, k: int)
    requires
        0 <= k <= tokens.len(),
        components_spec(tokens.take(k)) is Err,
    ensures
        components_spec(tokens) == components_spec(tokens.take(k)),
    decreases tokens.len() - k,
{
    if k < tokens.len() {
        assert(tokens.drop_last().take(k) =~= tokens.take(k));
        lemma_components_fail(tokens.drop_last(), k);
    } else {
        assert(tokens.take(k) =~= tokens);
    }
}

/// A dimension written as text: `<width>x<height>`, both in decimal.
pub open spec fn dimension_text(width: u64, height: u64) -> Seq<char> {
    decimal(width as nat) + seq!['x'] + decimal(height as nat)
}

/// A number written in decimal is read back as a component.
proof fn lemma_component_round_trip(n: u64)
    ensures
        component_spec(decimal(n as nat)) == Ok::<nat, ParseIntError>(n as nat),
        has_no_separator(decimal(n as nat), 'x', 'x'),
{
    let text = decimal(n as nat);
    lemma_decimal_digits(n as nat);
    lemma_parse_decimal_round_trip(n as nat, u64::MAX as nat);
    assert(is_digit(text[0]));
    assert(is_digit(text.last()));
    assert(trim_start_spec(text) == text);
    assert(trim_end_spec(text) == text);
    assert forall|i: int| 0 <= i < text.len() implies #[trigger] text[i] != 'x' && text[i]
        != 'x' by {
        assert(is_digit(text[i]));
    }
}

/// Reading what was written gives the dimension back: a width and a height
/// that are not zero, written as `<width>x<height>`, are read as that
/// width and that height.
pub proof fn lemma_split_str_round_trip(width: u64, height: u64)
    requires
        width > 0,
        height > 0,
    ensures
        split_str_spec(dimension_text(width, height)) == Ok::<Seq<u64>, DimensionErrorView>(
            seq![width, height],
        ),
{
    let left = decimal(width as nat);
    let right = decimal(height as nat);
    lemma_component_round_trip(width);
    lemma_component_round_trip(height);
    lemma_split_pair(left, right, 'x', 'x');
    let tokens = seq![left, right];
    let first = tokens.drop_last();
    assert(first =~= seq![left]);
    assert(first.drop_last() =~= Seq::<Seq<char>>::empty());
    assert(components_spec(first.drop_last()) == Ok::<Seq<u64>, ParseIntError>(
        Seq::<u64>::empty(),
    ));
    assert(first.last() == left);
    assert(Seq::<u64>::empty().push(width) =~= seq![width]);
    assert(components_spec(first) == Ok::<Seq<u64>, ParseIntError>(seq![width]));
    assert(tokens.last() == right);
    assert(seq![width].push(height) =~= seq![width, height]);
    assert(components_spec(tokens) == Ok::<Seq<u64>, ParseIntError>(seq![width, height]));
}

/// Splits a text of the form `<width>x<height>` into its two numbers.
pub fn split_str(string: &str) -> (r: WallSwitchResult<Vec<u64>>)
    ensures
        match r {
            Ok(numbers) => split_str_spec(string@) == Ok::<Seq<u64>, DimensionErrorView>(numbers@),
            Err(e) => e@ matches WallSwitchErrorView::InvalidDimension(cause) && split_str_spec(
                string@,
            ) == Err::<Seq<u64>, DimensionErrorView>(cause),
        },
{
    let tokens = split(string, 'x', 'x');
    let ghost all = texts(tokens@);
    let mut numbers: Vec<u64> = Vec::new();
    let mut i: usize = 0;
    assert(all.take(0) =~= Seq::<Seq<char>>::empty());
    while i < tokens.len()
        invariant
            i <= tokens.len(),
            all == texts(tokens@),
            all == split_spec(string@, 'x', 'x'),
            components_spec(all.take(i as int)) == Ok::<Seq<u64>, ParseIntError>(numbers@),
        decreases tokens.len() - i,
    {
        let token = trim(tokens[i].as_str());
        proof {
            let next = all.take(i + 1);
            assert(next.drop_last() =~= all.take(i as int));
            assert(next.last() == tokens@[i as int]@);
        }
        match parse_u64(token.as_str()) {
            Ok(n) => {
                numbers.push(n);
            },
            Err(e) => {
                proof {
                    lemma_components_fail(all, i + 1);
                }
                return Err(
                    WallSwitchError::InvalidDimension(
                        DimensionError::InvalidParse(String::from_str(string), e),
                    ),
                );
            },
        }
        i += 1;
    }
    assert(all.take(tokens.len() as int) =~= all);
    if numbers.len() != 2 {
        return Err(WallSwitchError::InvalidDimension(DimensionError::InvalidFormat));
    }
    if numbers[0] == 0 || numbers[1] == 0 {
        return Err(WallSwitchError::InvalidDimension(DimensionError::ZeroDimension));
    }
    Ok(numbers)
}

impl Dimension {
    /// Neither side is zero.
    pub open spec fn well_formed(self) -> bool {
        self.width > 0 && self.height > 0
    }

    /// The shorter side.
    pub open spec fn min_side(self) -> u64 {
        if self.height <= self.width {
            self.height
        } else {
            self.width
        }
    }

    /// The longer side.
    pub open spec fn max_side(self) -> u64 {
        if self.height >= self.width {
            self.height
        } else {
            self.width
        }
    }

    /// Both sides lie in the window from `low` to `high`.
    pub open spec fn fits(self, low: u64, high: u64) -> bool {
        low <= self.min_side() <= high && low <= self.max_side() <= high
    }

    /// Width and height exchanged.
    pub open spec fn swapped(self) -> Dimension {
        Dimension { width: self.height, height: self.width }
    }

    /// Whether a dimension fits a window does not depend on which side is
    /// the width and which the height.
    pub proof fn lemma_fits_is_symmetric(self, low: u64, high: u64)
        ensures
            self.swapped().fits(low, high) == self.fits(low, high),
            self.swapped().min_side() == self.min_side(),
            self.swapped().max_side() == self.max_side(),
    {
    }

    /// Reads a dimension from a text of the form `<width>x<height>`.
    pub fn new(string: &str) -> (r: WallSwitchResult<Dimension>)
        ensures
            match r {
                Ok(d) => split_str_spec(string@) == Ok::<Seq<u64>, DimensionErrorView>(
                    seq![d.width, d.height],
                ) && d.well_formed(),
                Err(e) => e@ matches WallSwitchErrorView::InvalidDimension(cause)
                    && split_str_spec(string@) == Err::<Seq<u64>, DimensionErrorView>(cause),
            },
    {
        match split_str(string) {
            Ok(numbers) => {
                assert(numbers@ =~= seq![numbers@[0], numbers@[1]]);
                Ok(Dimension { width: numbers[0], height: numbers[1] })
            },
            Err(e) => Err(e),
        }
    }

    /// The shorter side.
    pub fn minimum(&self) -> (r: u64)
        ensures
            r == self.min_side(),
    {
        if self.height <= self.width {
            self.height
        } else {
            self.width
        }
    }

    /// The longer side.
    pub fn maximum(&self) -> (r: u64)
        ensures
            r == self.max_side(),
    {
        if self.height >= self.width {
            self.height
        } else {
            self.width
        }
    }

    /// Whether both sides lie in the configured window.
    pub fn is_valid(&self, config: &Config) -> (r: bool)
        ensures
            r == self.fits(config.min_dimension, config.max_dimension),
    {
        config.in_range(self.minimum()) && config.in_range(self.maximum())
    }

    /// The shorter side, right-aligned to the width of the longer one.
    pub open spec fn aligned_minimum(self) -> Seq<char> {
        pad_left_spec(
            decimal(self.min_side() as nat),
            decimal(self.max_side() as nat).len(),
            ' ',
        )
    }

    /// The line that reports a shorter side outside the window; empty
    /// where the side is inside.
    pub open spec fn log_min(self, low: u64, high: u64) -> Seq<char> {
        if low <= self.min_side() <= high {
            Seq::<char>::empty()
        } else {
            "Minimum dimension: "@ + painted(YELLOW@, self.aligned_minimum()) + ". The condition ("@
                + painted(GREEN@, decimal(low as nat)) + " <= "@ + painted(
                YELLOW@,
                self.aligned_minimum(),
            ) + " <= "@ + painted(GREEN@, decimal(high as nat)) + ") is false.\n"@
        }
    }

    /// The line that reports a longer side outside the window; empty where
    /// the side is inside.
    pub open spec fn log_max(self, low: u64, high: u64) -> Seq<char> {
        if low <= self.max_side() <= high {
            Seq::<char>::empty()
        } else {
            "Maximum dimension: "@ + painted(YELLOW@, decimal(self.max_side() as nat))
                + ". The condition ("@ + painted(GREEN@, decimal(low as nat)) + " <= "@ + painted(
                YELLOW@,
                decimal(self.max_side() as nat),
            ) + " <= "@ + painted(GREEN@, decimal(high as nat)) + ") is false.\n"@
        }
    }

    /// Reports a shorter side that is outside the configured window.
    pub fn get_log_min(&self, config: &Config) -> (r: String)
        ensures
            r@ == self.log_min(config.min_dimension, config.max_dimension),
    {
        if config.in_range(self.minimum()) {
            String::new()
        } else {
            let width = decimal_width(self.maximum());
            let min = pad_left(u64_to_string(self.minimum()).as_str(), width, ' ');
            let shown = min.yellow();
            let mut r = String::from_str("Minimum dimension: ");
            r.append(shown.as_str());
            r.append(". The condition (");
            r.append(config.min_dimension.green().as_str());
            r.append(" <= ");
            r.append(shown.as_str());
            r.append(" <= ");
            r.append(config.max_dimension.green().as_str());
            r.append(") is false.\n");
            r
        }
    }

    /// Reports a longer side that is outside the configured window.
    pub fn get_log_max(&self, config: &Config) -> (r: String)
        ensures
            r@ == self.log_max(config.min_dimension, config.max_dimension),
    {
        if config.in_range(self.maximum()) {
            String::new()
        } else {
            let shown = self.maximum().yellow();
            let mut r = String::from_str("Maximum dimension: ");
            r.append(shown.as_str());
            r.append(". The condition (");
            r.append(config.min_dimension.green().as_str());
            r.append(" <= ");
            r.append(shown.as_str());
            r.append(" <= ");
            r.append(config.max_dimension.green().as_str());
            r.append(") is false.\n");
            r
        }
    }

    /// Both sides right-aligned to the width of the longer one.
    pub open spec fn shown(self) -> Seq<char> {
        let n = decimal(self.max_side() as nat).len();
        "Dimension { height: "@ + pad_left_spec(decimal(self.height as nat), n, ' ') + ", width: "@
            + pad_left_spec(decimal(self.width as nat), n, ' ') + " }"@
    }

    /// The dimension as text, its sides aligned to the same width.
    pub fn to_string(&self) -> (r: String)
        ensures
            r@ == self.shown(),
    {
        let n = decimal_width(self.maximum());
        let mut r = String::from_str("Dimension { height: ");
        r.append(pad_left(u64_to_string(self.height).as_str(), n, ' ').as_str());
        r.append(", width: ");
        r.append(pad_left(u64_to_string(self.width).as_str(), n, ' ').as_str());
        r.append(" }");
        r
    }
}

impl Colors for Dimension {
    open spec fn plain(&self) -> Seq<char> {
        self.shown()
    }

    fn plain_text(&self) -> (r: String) {
        self.to_string()
    }
}

} // verus!
