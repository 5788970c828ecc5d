//! The scoring core: bid taxonomy, per-bid point formulas, team point
//! distribution over seats, and the cumulative score ledger of a game.

use vstd::prelude::*;
use vstd::string::StrSliceExecFns;

use crate::error::WhistError;

verus! {

/// The code point of `c` with an ASCII capital folded to its small
/// letter; the catalogue labels are ASCII, so this is what a
/// case-insensitive match needs.
pub open spec fn lower_code(c: char) -> u32 {
    if 65 <= c as u32 && c as u32 <= 90 {
        (c as u32 + 32) as u32
    } else {
        c as u32
    }
}

/// Whether `s` is `canon` up to ASCII case.
pub open spec fn label_matches(s: Seq<char>, canon: Seq<char>) -> bool {
    s.len() == canon.len() && forall|i: int|
        0 <= i < s.len() ==> lower_code(s[i]) == lower_code(canon[i])
}

/// Compares a label with a canonical one, ignoring ASCII case.
fn label_eq(s: &str, canon: &str) -> (r: bool)
    ensures
        r == label_matches(s@, canon@),
{
    let n = s.unicode_len();
    if n != canon.unicode_len() {
        return false;
    }
    let mut i: usize = 0;
    while i < n
        invariant
            i <= n,
            n == s@.len(),
            n == canon@.len(),
            forall|k: int| 0 <= k < i ==> lower_code(s@[k]) == lower_code(canon@[k]),
        decreases n - i,
    {
        let ac = s.get_char(i) as u32;
        let bc = canon.get_char(i) as u32;
        let al = if 65 <= ac && ac <= 90 {
            ac + 32
        } else {
            ac
        };
        let bl = if 65 <= bc && bc <= 90 {
            bc + 32
        } else {
            bc
        };
        if al != bl {
            proof {
                assert(lower_code(s@[i as int]) != lower_code(canon@[i as int]));
            }
            return false;
        }
        i = i + 1;
    }
    true
}

/// A bid, the contract a declaring side plays against.
///
/// The level carried by `Solo` is in `5..=8`, by `Duo` in `8..=13` and by
/// `Abondance` in `9..=12`; see [`Bid::wf`].  Values are built by
/// [`Bid::parse`] from a catalogue label, which only produces well-formed
/// bids.
#[derive(Clone, Copy, Debug, PartialEq, Eq, Structural)]
pub enum Bid {
    Solo(i16),
    Duo(i16),
    Abondance(i16),
    SmallMisery,
    Trull,
    LargeMisery,
    OpenMisery,
    GrandSlam,
}

impl Bid {
    /// Whether the carried level is one the catalogue knows.
    pub open spec fn wf(self) -> bool {
        match self {
            Bid::Solo(level) => 5 <= level <= 8,
            Bid::Duo(level) => 8 <= level <= 13,
            Bid::Abondance(level) => 9 <= level <= 12,
            _ => true,
        }
    }

    /// Whether the bid is declared by one seat against three.
    pub open spec fn is_solo_category(self) -> bool {
        match self {
            Bid::Solo(_) => true,
            Bid::Abondance(_) => true,
            Bid::SmallMisery => true,
            Bid::LargeMisery => true,
            Bid::OpenMisery => true,
            Bid::GrandSlam => true,
            Bid::Duo(_) => false,
            Bid::Trull => false,
        }
    }

    /// Whether the bid is declared by two seats against two.
    pub open spec fn is_duo_category(self) -> bool {
        !self.is_solo_category()
    }
}

/// The catalogue lookup: the bid a label names, by exact
/// case-insensitive match, or `UnknownBid` for a label outside the
/// catalogue.
pub open spec fn spec_parse(s: Seq<char>) -> Result<Bid, WhistError> {
    if label_matches(s, "Solo 5"@) {
        Ok(Bid::Solo(5))
    } else if label_matches(s, "Solo 6"@) {
        Ok(Bid::Solo(6))
    } else if label_matches(s, "Solo 7"@) {
        Ok(Bid::Solo(7))
    } else if label_matches(s, "Solo 8"@) {
        Ok(Bid::Solo(8))
    } else if label_matches(s, "Samen 8"@) {
        Ok(Bid::Duo(8))
    } else if label_matches(s, "Samen 9"@) {
        Ok(Bid::Duo(9))
    } else if label_matches(s, "Samen 10"@) {
        Ok(Bid::Duo(10))
    } else if label_matches(s, "Samen 11"@) {
        Ok(Bid::Duo(11))
    } else if label_matches(s, "Samen 12"@) {
        Ok(Bid::Duo(12))
    } else if label_matches(s, "Samen 13"@) {
        Ok(Bid::Duo(13))
    } else if label_matches(s, "Abondance 9"@) {
        Ok(Bid::Abondance(9))
    } else if label_matches(s, "Abondance 10"@) {
        Ok(Bid::Abondance(10))
    } else if label_matches(s, "Abondance 11"@) {
        Ok(Bid::Abondance(11))
    } else if label_matches(s, "Abondance 12"@) {
        Ok(Bid::Abondance(12))
    } else if label_matches(s, "Solo Slim"@) {
        Ok(Bid::GrandSlam)
    } else if label_matches(s, "Kleine Miserie"@) {
        Ok(Bid::SmallMisery)
    } else if label_matches(s, "Grote Miserie"@) {
        Ok(Bid::LargeMisery)
    } else if label_matches(s, "Open Miserie"@) {
        Ok(Bid::OpenMisery)
    } else if label_matches(s, "Troel"@) {
        Ok(Bid::Trull)
    } else {
        Err(WhistError::UnknownBid)
    }
}

impl Bid {
    /// Looks a label up in the catalogue, matching exactly but for
    /// case.  An unknown label yields `UnknownBid`; a parsed bid is
    /// always well-formed.
    pub fn parse(label: &str) -> (r: Result<Bid, WhistError>)
        ensures
            r == spec_parse(label@),
            r matches Ok(b) ==> b.wf(),
    {
        if label_eq(label, "Solo 5") {
            Ok(Bid::Solo(5))
        } else if label_eq(label, "Solo 6") {
            Ok(Bid::Solo(6))
        } else if label_eq(label, "Solo 7") {
            Ok(Bid::Solo(7))
        } else if label_eq(label, "Solo 8") {
            Ok(Bid::Solo(8))
        } else if label_eq(label, "Samen 8") {
            Ok(Bid::Duo(8))
        } else if label_eq(label, "Samen 9") {
            Ok(Bid::Duo(9))
        } else if label_eq(label, "Samen 10") {
            Ok(Bid::Duo(10))
        } else if label_eq(label, "Samen 11") {
            Ok(Bid::Duo(11))
        } else if label_eq(label, "Samen 12") {
            Ok(Bid::Duo(12))
        } else if label_eq(label, "Samen 13") {
            Ok(Bid::Duo(13))
        } else if label_eq(label, "Abondance 9") {
            Ok(Bid::Abondance(9))
        } else if label_eq(label, "Abondance 10") {
            Ok(Bid::Abondance(10))
        } else if label_eq(label, "Abondance 11") {
            Ok(Bid::Abondance(11))
        } else if label_eq(label, "Abondance 12") {
            Ok(Bid::Abondance(12))
        } else if label_eq(label, "Solo Slim") {
            Ok(Bid::GrandSlam)
        } else if label_eq(label, "Kleine Miserie") {
            Ok(Bid::SmallMisery)
        } else if label_eq(label, "Grote Miserie") {
            Ok(Bid::LargeMisery)
        } else if label_eq(label, "Open Miserie") {
            Ok(Bid::OpenMisery)
        } else if label_eq(label, "Troel") {
            Ok(Bid::Trull)
        } else {
            Err(WhistError::UnknownBid)
        }
    }
}

/// The published catalogue agrees with the parser: each of the
/// nineteen labels, as listed by [`solo_bids`] and [`duo_bids`], parses
/// to its own bid.
pub proof fn lemma_catalogue_parses()
    ensures
        spec_parse("Solo 5"@) == Ok::<Bid, WhistError>(Bid::Solo(5)),
        spec_parse("Solo 6"@) == Ok::<Bid, WhistError>(Bid::Solo(6)),
        spec_parse("Solo 7"@) == Ok::<Bid, WhistError>(Bid::Solo(7)),
        spec_parse("Solo 8"@) == Ok::<Bid, WhistError>(Bid::Solo(8)),
        spec_parse("Samen 8"@) == Ok::<Bid, WhistError>(Bid::Duo(8)),
        spec_parse("Samen 9"@) == Ok::<Bid, WhistError>(Bid::Duo(9)),
        spec_parse("Samen 10"@) == Ok::<Bid, WhistError>(Bid::Duo(10)),
        spec_parse("Samen 11"@) == Ok::<Bid, WhistError>(Bid::Duo(11)),
        spec_parse("Samen 12"@) == Ok::<Bid, WhistError>(Bid::Duo(12)),
        spec_parse("Samen 13"@) == Ok::<Bid, WhistError>(Bid::Duo(13)),
        spec_parse("Abondance 9"@) == Ok::<Bid, WhistError>(Bid::Abondance(9)),
        spec_parse("Abondance 10"@) == Ok::<Bid, WhistError>(Bid::Abondance(10)),
        spec_parse("Abondance 11"@) == Ok::<Bid, WhistError>(Bid::Abondance(11)),
        spec_parse("Abondance 12"@) == Ok::<Bid, WhistError>(Bid::Abondance(12)),
        spec_parse("Solo Slim"@) == Ok::<Bid, WhistError>(Bid::GrandSlam),
        spec_parse("Kleine Miserie"@) == Ok::<Bid, WhistError>(Bid::SmallMisery),
        spec_parse("Grote Miserie"@) == Ok::<Bid, WhistError>(Bid::LargeMisery),
        spec_parse("Open Miserie"@) == Ok::<Bid, WhistError>(Bid::OpenMisery),
        spec_parse("Troel"@) == Ok::<Bid, WhistError>(Bid::Trull),
{
    reveal_strlit("Solo 5");
    reveal_strlit("Solo 6");
    reveal_strlit("Solo 7");
    reveal_strlit("Solo 8");
    reveal_strlit("Samen 8");
    reveal_strlit("Samen 9");
    reveal_strlit("Samen 10");
    reveal_strlit("Samen 11");
    reveal_strlit("Samen 12");
    reveal_strlit("Samen 13");
    reveal_strlit("Abondance 9");
    reveal_strlit("Abondance 10");
    reveal_strlit("Abondance 11");
    reveal_strlit("Abondance 12");
    reveal_strlit("Solo Slim");
    reveal_strlit("Kleine Miserie");
    reveal_strlit("Grote Miserie");
    reveal_strlit("Open Miserie");
    reveal_strlit("Troel");
    // A label always matches itself: the fold is applied to both sides.
    assert forall|s: Seq<char>| label_matches(s, s) by {
        assert(forall|i: int| 0 <= i < s.len() ==> lower_code(s[i]) == lower_code(s[i]));
    }
    // Labels of equal length differ at some position even after folding.
    assert(lower_code("Solo 6"@[5]) != lower_code("Solo 5"@[5]));
    assert(lower_code("Solo 7"@[5]) != lower_code("Solo 5"@[5]));
    assert(lower_code("Solo 7"@[5]) != lower_code("Solo 6"@[5]));
    assert(lower_code("Solo 8"@[5]) != lower_code("Solo 5"@[5]));
    assert(lower_code("Solo 8"@[5]) != lower_code("Solo 6"@[5]));
    assert(lower_code("Solo 8"@[5]) != lower_code("Solo 7"@[5]));
    assert(lower_code("Samen 9"@[6]) != lower_code("Samen 8"@[6]));
    assert(lower_code("Samen 11"@[7]) != lower_code("Samen 10"@[7]));
    assert(lower_code("Samen 12"@[7]) != lower_code("Samen 10"@[7]));
    assert(lower_code("Samen 12"@[7]) != lower_code("Samen 11"@[7]));
    assert(lower_code("Samen 13"@[7]) != lower_code("Samen 10"@[7]));
    assert(lower_code("Samen 13"@[7]) != lower_code("Samen 11"@[7]));
    assert(lower_code("Samen 13"@[7]) != lower_code("Samen 12"@[7]));
    assert(lower_code("Abondance 11"@[11]) != lower_code("Abondance 10"@[11]));
    assert(lower_code("Abondance 12"@[11]) != lower_code("Abondance 10"@[11]));
    assert(lower_code("Abondance 12"@[11]) != lower_code("Abondance 11"@[11]));
    assert(lower_code("Open Miserie"@[0]) != lower_code("Abondance 10"@[0]));
    assert(lower_code("Open Miserie"@[0]) != lower_code("Abondance 11"@[0]));
    assert(lower_code("Open Miserie"@[0]) != lower_code("Abondance 12"@[0]));
}

/// The twelve labels of the bids one seat declares alone, in catalogue
/// order, for presentation.
pub fn solo_bids() -> (r: Vec<String>)
    ensures
        r@.len() == 12,
        r@[0]@ == "Solo 5"@,
        r@[1]@ == "Solo 6"@,
        r@[2]@ == "Solo 7"@,
        r@[3]@ == "Solo 8"@,
        r@[4]@ == "Kleine Miserie"@,
        r@[5]@ == "Grote Miserie"@,
        r@[6]@ == "Open Miserie"@,
        r@[7]@ == "Abondance 9"@,
        r@[8]@ == "Abondance 10"@,
        r@[9]@ == "Abondance 11"@,
        r@[10]@ == "Abondance 12"@,
        r@[11]@ == "Solo Slim"@,
{
    let mut v: Vec<String> = Vec::new();
    v.push("Solo 5".to_owned());
    v.push("Solo 6".to_owned());
    v.push("Solo 7".to_owned());
    v.push("Solo 8".to_owned());
    v.push("Kleine Miserie".to_owned());
    v.push("Grote Miserie".to_owned());
    v.push("Open Miserie".to_owned());
    v.push("Abondance 9".to_owned());
    v.push("Abondance 10".to_owned());
    v.push("Abondance 11".to_owned());
    v.push("Abondance 12".to_owned());
    v.push("Solo Slim".to_owned());
    v
}

/// The seven labels of the bids a pair declares together, in catalogue
/// order, for presentation.
pub fn duo_bids() -> (r: Vec<String>)
    ensures
        r@.len() == 7,
        r@[0]@ == "Samen 8"@,
        r@[1]@ == "Samen 9"@,
        r@[2]@ == "Samen 10"@,
        r@[3]@ == "Samen 11"@,
        r@[4]@ == "Samen 12"@,
        r@[5]@ == "Samen 13"@,
        r@[6]@ == "Troel"@,
{
    let mut v: Vec<String> = Vec::new();
    v.push("Samen 8".to_owned());
    v.push("Samen 9".to_owned());
    v.push("Samen 10".to_owned());
    v.push("Samen 11".to_owned());
    v.push("Samen 12".to_owned());
    v.push("Samen 13".to_owned());
    v.push("Troel".to_owned());
    v
}

/// The winnings for an abondance played home with `achieved` tricks,
/// for `achieved` in `9..=13`.
pub open spec fn abondance_win(achieved: int) -> int {
    if achieved == 13 {
        60
    } else if achieved == 12 {
        30
    } else if achieved == 11 {
        20
    } else if achieved == 10 {
        15
    } else {
        10
    }
}

/// The base value of a `Duo` bid at its level.
pub open spec fn duo_base(level: int) -> int {
    3 * level - 16
}

/// The team point earned by the declaring side: the signed value of the
/// bid formula table, before the distribution multiplier.
///
/// Defined for well-formed bids and `achieved` in `0..=13`.
pub open spec fn spec_points(bid: Bid, achieved: int) -> int {
    match bid {
        Bid::Solo(level) => if level == 8 {
            if achieved >= 8 {
                7
            } else {
                achieved - 15
            }
        } else {
            if achieved >= level {
                if achieved - 2 <= 6 {
                    achieved - 2
                } else {
                    6
                }
            } else {
                achieved - (level + 3)
            }
        },
        Bid::Duo(level) => if achieved == 13 {
            30
        } else if achieved >= level {
            duo_base(level as int) + 3 * (achieved - level)
        } else {
            3 * (achieved - level) - duo_base(level as int)
        },
        Bid::Abondance(level) => if achieved >= level {
            abondance_win(achieved)
        } else {
            -abondance_win(level as int)
        },
        Bid::SmallMisery => if achieved == 0 {
            6
        } else {
            -6
        },
        Bid::Trull => if achieved >= 8 {
            16
        } else {
            -16
        },
        Bid::LargeMisery => if achieved == 0 {
            12
        } else {
            -12
        },
        Bid::OpenMisery => if achieved == 0 {
            24
        } else {
            -24
        },
        Bid::GrandSlam => if achieved == 13 {
            60
        } else {
            -60
        },
    }
}

/// Bounds of the team point over the whole formula table.  A
/// solo-category value stays within `-60..=60`, so that the tripled
/// declarer share stays within `-180..=180`.
pub proof fn lemma_points_bounded(bid: Bid, achieved: int)
    requires
        bid.wf(),
        0 <= achieved <= 13,
    ensures
        -62 <= spec_points(bid, achieved) <= 60,
        bid.is_solo_category() ==> -60 <= spec_points(bid, achieved) <= 60,
{
}

impl Bid {
    /// The amount of points that the declaring side gets.
    ///
    /// For a solo-category bid the distribution rule later multiplies this
    /// value by three for the declarer; the table value itself is the same
    /// for every category.
    pub fn points(&self, achieved: i16) -> (r: i16)
        requires
            self.wf(),
            0 <= achieved <= 13,
        ensures
            r as int == spec_points(*self, achieved as int),
    {
        match self {
            Bid::Solo(level) => {
                if *level == 8 {
                    if achieved >= 8 {
                        7
                    } else {
                        achieved - 15
                    }
                } else {
                    if achieved >= *level {
                        let raw = achieved - 2;
                        if raw <= 6 {
                            raw
                        } else {
                            6
                        }
                    } else {
                        achieved - (*level + 3)
                    }
                }
            },
            Bid::Duo(level) => {
                if achieved == 13 {
                    30
                } else if achieved >= *level {
                    (3 * *level - 16) + 3 * (achieved - *level)
                } else {
                    3 * (achieved - *level) - (3 * *level - 16)
                }
            },
            Bid::Abondance(level) => {
                if achieved >= *level {
                    match achieved {
                        13 => 60,
                        12 => 30,
                        11 => 20,
                        10 => 15,
                        _ => 10,
                    }
                } else {
                    match *level {
                        12 => -30,
                        11 => -20,
                        10 => -15,
                        _ => -10,
                    }
                }
            },
            Bid::SmallMisery => if achieved == 0 {
                6
            } else {
                -6
            },
            Bid::Trull => if achieved >= 8 {
                16
            } else {
                -16
            },
            Bid::LargeMisery => if achieved == 0 {
                12
            } else {
                -12
            },
            Bid::OpenMisery => if achieved == 0 {
                24
            } else {
                -24
            },
            Bid::GrandSlam => if achieved == 13 {
                60
            } else {
                -60
            },
        }
    }
}

/// The sum of a sequence of integers.
pub open spec fn sum_int(s: Seq<int>) -> int
    decreases s.len(),
{
    if s.len() == 0 {
        0
    } else {
        sum_int(s.drop_last()) + s.last()
    }
}

/// Updating one entry moves the sum by the difference at that entry.
pub proof fn lemma_sum_update(s: Seq<int>, i: int, v: int)
    requires
        0 <= i < s.len(),
    ensures
        sum_int(s.update(i, v)) == sum_int(s) - s[i] + v,
    decreases s.len(),
{
    if i == s.len() - 1 {
        assert(s.update(i, v).drop_last() =~= s.drop_last());
    } else {
        assert(s.update(i, v).drop_last() =~= s.drop_last().update(i, v));
        lemma_sum_update(s.drop_last(), i, v);
    }
}

/// A sequence of zeroes sums to zero.
pub proof fn lemma_sum_zeroes(s: Seq<int>)
    requires
        forall|i: int| 0 <= i < s.len() ==> s[i] == 0,
    ensures
        sum_int(s) == 0,
    decreases s.len(),
{
    if s.len() > 0 {
        lemma_sum_zeroes(s.drop_last());
    }
}

/// A seat-indexed vector of signed points, one entry per seat.
#[derive(Debug)]
pub struct Points(pub Vec<i16>);

impl View for Points {
    type V = Seq<int>;

    open spec fn view(&self) -> Seq<int> {
        self.0@.map(|i: int, x: i16| x as int)
    }
}

impl Points {
    /// An all-zero vector with one entry per seat.
    pub fn new(num_players: usize) -> (r: Points)
        ensures
            r@.len() == num_players,
            forall|i: int| 0 <= i < num_players ==> r@[i] == 0,
    {
        let mut entries: Vec<i16> = Vec::new();
        let mut k: usize = 0;
        while k < num_players
            invariant
                k <= num_players,
                entries@.len() == k,
                forall|i: int| 0 <= i < k ==> entries@[i] == 0i16,
            decreases num_players - k,
        {
            entries.push(0);
            k = k + 1;
        }
        Points(entries)
    }

    /// Wraps a plain vector of entries.
    pub fn from_vec(entries: Vec<i16>) -> (r: Points)
        ensures
            r@.len() == entries@.len(),
            forall|i: int| 0 <= i < entries@.len() ==> r@[i] == entries@[i] as int,
    {
        Points(entries)
    }

    /// The number of seats the vector covers.
    pub fn len(&self) -> (r: usize)
        ensures
            r == self@.len(),
    {
        self.0.len()
    }

    /// The entry of one seat.
    pub fn get(&self, i: usize) -> (r: i16)
        requires
            i < self@.len(),
        ensures
            r as int == self@[i as int],
    {
        self.0[i]
    }

    /// Whether the seat's entry is a gain.
    pub fn positive(&self, i: &usize) -> (r: bool)
        requires
            *i < self@.len(),
        ensures
            r == (self@[*i as int] > 0),
    {
        self.0[*i] > 0
    }

    /// Elementwise sum, `None` when an entry would leave `i16`.
    pub fn checked_plus(&self, rhs: &Points) -> (r: Option<Points>)
        requires
            self@.len() == rhs@.len(),
        ensures
            match r {
                Some(p) => {
                    &&& p@.len() == self@.len()
                    &&& forall|i: int| 0 <= i < self@.len() ==> p@[i] == self@[i] + rhs@[i]
                    &&& forall|i: int|
                        0 <= i < self@.len() ==> i16::MIN <= (#[trigger] self@[i]) + rhs@[i]
                            <= i16::MAX
                },
                None => exists|i: int|
                    0 <= i < self@.len() && !(i16::MIN <= (#[trigger] self@[i]) + rhs@[i]
                        <= i16::MAX),
            },
    {
        let n = self.0.len();
        let mut entries: Vec<i16> = Vec::new();
        let mut k: usize = 0;
        while k < n
            invariant
                k <= n,
                n == self@.len(),
                self@.len() == rhs@.len(),
                entries@.len() == k,
                forall|i: int| 0 <= i < k ==> entries@[i] as int == self@[i] + rhs@[i],
                forall|i: int|
                    0 <= i < k ==> i16::MIN <= (#[trigger] self@[i]) + rhs@[i] <= i16::MAX,
            decreases n - k,
        {
            let wide = self.0[k] as i32 + rhs.0[k] as i32;
            if wide < i16::MIN as i32 || wide > i16::MAX as i32 {
                proof {
                    assert(self@[k as int] == self.0@[k as int] as int);
                    assert(rhs@[k as int] == rhs.0@[k as int] as int);
                    assert(!(i16::MIN <= self@[k as int] + rhs@[k as int] <= i16::MAX));
                }
                return None;
            }
            entries.push(wide as i16);
            k = k + 1;
        }
        Some(Points(entries))
    }

    /// Elementwise difference, defined when every entry stays in `i16`.
    pub fn minus(&self, rhs: &Points) -> (r: Points)
        requires
            self@.len() == rhs@.len(),
            forall|i: int|
                0 <= i < self@.len() ==> i16::MIN <= (#[trigger] self@[i]) - rhs@[i] <= i16::MAX,
        ensures
            r@.len() == self@.len(),
            forall|i: int| 0 <= i < self@.len() ==> r@[i] == self@[i] - rhs@[i],
    {
        let n = self.0.len();
        let mut entries: Vec<i16> = Vec::new();
        let mut k: usize = 0;
        while k < n
            invariant
                k <= n,
                n == self@.len(),
                self@.len() == rhs@.len(),
                forall|i: int|
                    0 <= i < n ==> i16::MIN <= (#[trigger] self@[i]) - rhs@[i] <= i16::MAX,
                entries@.len() == k,
                forall|i: int| 0 <= i < k ==> entries@[i] as int == self@[i] - rhs@[i],
            decreases n - k,
        {
            proof {
                assert(i16::MIN <= self@[k as int] - rhs@[k as int] <= i16::MAX);
                assert(self@[k as int] == self.0@[k as int] as int);
                assert(rhs@[k as int] == rhs.0@[k as int] as int);
            }
            entries.push(self.0[k] - rhs.0[k]);
            k = k + 1;
        }
        Points(entries)
    }

    /// The sum of all entries, exact in `i64`.
    pub fn total(&self) -> (r: i64)
        requires
            self@.len() <= 0x1_0000_0000,
        ensures
            r == sum_int(self@),
    {
        let n = self.0.len();
        let mut acc: i64 = 0;
        let mut k: usize = 0;
        while k < n
            invariant
                k <= n,
                n == self@.len(),
                n <= 0x1_0000_0000,
                acc == sum_int(self@.take(k as int)),
                -0x8000 * (k as int) <= acc <= 0x8000 * (k as int),
            decreases n - k,
        {
            proof {
                assert(self@.take(k as int + 1).drop_last() =~= self@.take(k as int));
                assert(self@.take(k as int + 1).last() == self@[k as int]);
            }
            acc = acc + self.0[k] as i64;
            k = k + 1;
        }
        proof {
            assert(self@.take(n as int) =~= self@);
        }
        acc
    }
}

impl Default for Points {
    /// The zero vector for the canonical four seats.
    fn default() -> (r: Points)
        ensures
            r@.len() == 4,
            forall|i: int| 0 <= i < 4 ==> r@[i] == 0,
    {
        Points::new(4)
    }
}

impl Clone for Points {
    /// An entrywise copy.
    fn clone(&self) -> (r: Self)
        ensures
            r@ == self@,
    {
        let n = self.0.len();
        let mut entries: Vec<i16> = Vec::new();
        let mut k: usize = 0;
        while k < n
            invariant
                k <= n,
                n == self.0@.len(),
                entries@.len() == k,
                forall|i: int| 0 <= i < k ==> entries@[i] == self.0@[i],
            decreases n - k,
        {
            entries.push(self.0[k]);
            k = k + 1;
        }
        let r = Points(entries);
        proof {
            assert(r@ =~= self@);
        }
        r
    }
}

/// The ordered seat list of a game: one name per seat, fixed at
/// creation apart from the optional extra seats.
#[derive(Clone, Debug)]
pub struct Players(pub Vec<String>);

impl View for Players {
    type V = Seq<Seq<char>>;

    open spec fn view(&self) -> Seq<Seq<char>> {
        self.0@.map(|i: int, s: String| s@)
    }
}

impl Players {
    /// Wraps an ordered list of seat names.
    pub fn new(names: Vec<String>) -> (r: Players)
        ensures
            r@.len() == names@.len(),
            forall|i: int| 0 <= i < names@.len() ==> r@[i] == names@[i]@,
    {
        Players(names)
    }

    /// The number of seats.
    pub fn len(&self) -> (r: usize)
        ensures
            r == self@.len(),
    {
        self.0.len()
    }

    /// Whether the game has no seats at all.
    pub fn is_empty(&self) -> (r: bool)
        ensures
            r == (self@.len() == 0),
    {
        self.0.len() == 0
    }

    /// The name seated at `i`.
    pub fn name_at(&self, i: usize) -> (r: &String)
        requires
            i < self@.len(),
        ensures
            r@ == self@[i as int],
    {
        &self.0[i]
    }

    /// Appends an optional extra seat; an empty name means the seat was
    /// not filled in and is skipped.
    pub fn opt_add_player(&mut self, opt_player: &str)
        ensures
            opt_player@.len() == 0 ==> *final(self) == *old(self),
            opt_player@.len() > 0 ==> {
                &&& final(self)@.len() == old(self)@.len() + 1
                &&& final(self)@.drop_last() =~= old(self)@
                &&& final(self)@.last() == opt_player@
            },
    {
        if !opt_player.is_empty() {
            self.0.push(opt_player.to_owned());
        }
    }
}

/// Which seats declared the bid and which oppose it, as indices into the
/// seat list.
///
/// A well-formed team names each seat exactly once, so the two index
/// sets partition the seats; see [`Team::wf`].
#[derive(Clone, Copy, Debug, PartialEq, Eq)]
pub enum Team {
    Solo(usize, (usize, usize, usize)),
    Duo((usize, usize), (usize, usize)),
}

impl Team {
    /// Whether the declarer and opponent indices exactly partition the
    /// `num_players` seats: no omission, no duplication.  A team names
    /// four seats, so only a four-seat game admits one.
    pub open spec fn wf(self, num_players: int) -> bool {
        num_players == 4 && match self {
            Team::Solo(d, (o1, o2, o3)) => {
                &&& d < 4 && o1 < 4 && o2 < 4 && o3 < 4
                &&& d != o1 && d != o2 && d != o3
                &&& o1 != o2 && o1 != o3 && o2 != o3
            },
            Team::Duo((p1, p2), (o1, o2)) => {
                &&& p1 < 4 && p2 < 4 && o1 < 4 && o2 < 4
                &&& p1 != p2 && p1 != o1 && p1 != o2
                &&& p2 != o1 && p2 != o2 && o1 != o2
            },
        }
    }

    /// Whether the team shape matches the bid's category: a lone
    /// declarer takes a solo-category bid, a pair takes a duo-category
    /// one.
    pub open spec fn matches_bid(self, bid: Bid) -> bool {
        match self {
            Team::Solo(_, _) => bid.is_solo_category(),
            Team::Duo(_, _) => bid.is_duo_category(),
        }
    }

    /// Builds the one-against-three team, rejecting index sets that do
    /// not partition the seats.
    pub fn new_solo(declarer: usize, opponents: (usize, usize, usize), num_players: usize) -> (r:
        Result<Team, WhistError>)
        ensures
            Team::Solo(declarer, opponents).wf(num_players as int) ==> r == Ok::<Team, WhistError>(
                Team::Solo(declarer, opponents),
            ),
            !Team::Solo(declarer, opponents).wf(num_players as int) ==> r == Err::<
                Team,
                WhistError,
            >(WhistError::InvalidTeamComposition),
    {
        let (o1, o2, o3) = opponents;
        if num_players == 4 && declarer < 4 && o1 < 4 && o2 < 4 && o3 < 4 && declarer != o1
            && declarer != o2 && declarer != o3 && o1 != o2 && o1 != o3 && o2 != o3 {
            Ok(Team::Solo(declarer, opponents))
        } else {
            Err(WhistError::InvalidTeamComposition)
        }
    }

    /// Builds the two-against-two team, rejecting index sets that do not
    /// partition the seats.
    pub fn new_duo(partners: (usize, usize), opponents: (usize, usize), num_players: usize) -> (r:
        Result<Team, WhistError>)
        ensures
            Team::Duo(partners, opponents).wf(num_players as int) ==> r == Ok::<Team, WhistError>(
                Team::Duo(partners, opponents),
            ),
            !Team::Duo(partners, opponents).wf(num_players as int) ==> r == Err::<
                Team,
                WhistError,
            >(WhistError::InvalidTeamComposition),
    {
        let (p1, p2) = partners;
        let (o1, o2) = opponents;
        if num_players == 4 && p1 < 4 && p2 < 4 && o1 < 4 && o2 < 4 && p1 != p2 && p1 != o1 && p1
            != o2 && p2 != o1 && p2 != o2 && o1 != o2 {
            Ok(Team::Duo(partners, opponents))
        } else {
            Err(WhistError::InvalidTeamComposition)
        }
    }
}

/// One played round: the team, the bid and the tricks the declaring side
/// achieved.
#[derive(Clone, Copy, Debug)]
pub struct Deal {
    pub team: Team,
    pub bid: Bid,
    pub achieved: i16,
}

/// The per-seat point delta a deal produces, over `num_players` seats.
///
/// With team point `tp`: a lone declarer gains `3 * tp` while each of
/// the three opponents loses `tp`; each of two partners gains `tp` while
/// each of their two opponents loses `tp`.  Uninvolved entries stay zero
/// (a well-formed team leaves none).
pub open spec fn spec_delta(deal: Deal, num_players: int) -> Seq<int> {
    let tp = spec_points(deal.bid, deal.achieved as int);
    let zero = Seq::<int>::new(num_players as nat, |i: int| 0);
    match deal.team {
        Team::Solo(d, (o1, o2, o3)) => zero.update(d as int, 3 * tp).update(o1 as int, -tp).update(
            o2 as int,
            -tp,
        ).update(o3 as int, -tp),
        Team::Duo((p1, p2), (o1, o2)) => zero.update(p1 as int, tp).update(p2 as int, tp).update(
            o1 as int,
            -tp,
        ).update(o2 as int, -tp),
    }
}

impl Deal {
    /// Whether the deal is structurally valid: a catalogue bid, tricks in
    /// range, a team that partitions the seats and matches the bid's
    /// category.
    pub open spec fn wf(self, num_players: int) -> bool {
        &&& self.bid.wf()
        &&& 0 <= self.achieved <= 13
        &&& self.team.wf(num_players)
        &&& self.team.matches_bid(self.bid)
    }

    /// The structural checks of [`Deal::wf`], as the error each failure
    /// reports: an unknown bid, then tricks out of range, then a bad
    /// team.
    pub open spec fn spec_validate(self, num_players: int) -> Result<(), WhistError> {
        if !self.bid.wf() {
            Err(WhistError::UnknownBid)
        } else if !(0 <= self.achieved <= 13) {
            Err(WhistError::OutOfRangeTricks)
        } else if !(self.team.wf(num_players) && self.team.matches_bid(self.bid)) {
            Err(WhistError::InvalidTeamComposition)
        } else {
            Ok(())
        }
    }

    /// Validates the deal against the seat count, reporting the first
    /// failed structural check.
    pub fn validate(&self, num_players: usize) -> (r: Result<(), WhistError>)
        ensures
            r == self.spec_validate(num_players as int),
            r is Ok <==> self.wf(num_players as int),
    {
        let bid_ok = match self.bid {
            Bid::Solo(level) => 5 <= level && level <= 8,
            Bid::Duo(level) => 8 <= level && level <= 13,
            Bid::Abondance(level) => 9 <= level && level <= 12,
            _ => true,
        };
        if !bid_ok {
            return Err(WhistError::UnknownBid);
        }
        if !(0 <= self.achieved && self.achieved <= 13) {
            return Err(WhistError::OutOfRangeTricks);
        }
        let solo_bid = match self.bid {
            Bid::Duo(_) => false,
            Bid::Trull => false,
            _ => true,
        };
        let team_ok = match self.team {
            Team::Solo(d, (o1, o2, o3)) => num_players == 4 && d < 4 && o1 < 4 && o2 < 4 && o3 < 4
                && d != o1 && d != o2 && d != o3 && o1 != o2 && o1 != o3 && o2 != o3 && solo_bid,
            Team::Duo((p1, p2), (o1, o2)) => num_players == 4 && p1 < 4 && p2 < 4 && o1 < 4 && o2
                < 4 && p1 != p2 && p1 != o1 && p1 != o2 && p2 != o1 && p2 != o2 && o1 != o2
                && !solo_bid,
        };
        if !team_ok {
            return Err(WhistError::InvalidTeamComposition);
        }
        Ok(())
    }

    /// Builds a validated deal; see [`Deal::validate`] for the errors.
    pub fn new(team: Team, bid: Bid, achieved: i16, num_players: usize) -> (r: Result<
        Deal,
        WhistError,
    >)
        ensures
            match r {
                Ok(d) => d == (Deal { team, bid, achieved }) && d.wf(num_players as int),
                Err(e) => Err::<(), WhistError>(e) == (Deal {
                    team,
                    bid,
                    achieved,
                }).spec_validate(num_players as int),
            },
    {
        let deal = Deal { team, bid, achieved };
        match deal.validate(num_players) {
            Ok(_) => Ok(deal),
            Err(e) => Err(e),
        }
    }

    /// The point delta of this deal: the team point routed through the
    /// distribution rule.  The entries always sum to zero.
    pub fn to_points(self, num_players: usize) -> (r: Points)
        requires
            self.wf(num_players as int),
        ensures
            r@ =~= spec_delta(self, num_players as int),
            sum_int(r@) == 0,
    {
        let mut points = Points::new(num_players);
        let team_point = self.bid.points(self.achieved);
        proof {
            lemma_points_bounded(self.bid, self.achieved as int);
        }
        match self.team {
            Team::Solo(player, opps) => {
                points.0.set(player, 3 * team_point);
                points.0.set(opps.0, -team_point);
                points.0.set(opps.1, -team_point);
                points.0.set(opps.2, -team_point);
            },
            Team::Duo(players, opps) => {
                points.0.set(players.0, team_point);
                points.0.set(players.1, team_point);
                points.0.set(opps.0, -team_point);
                points.0.set(opps.1, -team_point);
            },
        }
        proof {
            lemma_delta_zero_sum(self, num_players as int);
            assert(points@ =~= spec_delta(self, num_players as int));
        }
        points
    }
}

/// The delta of a valid deal is zero-sum: what the declaring side gains,
/// the opponents lose exactly.
pub proof fn lemma_delta_zero_sum(deal: Deal, num_players: int)
    requires
        deal.wf(num_players),
    ensures
        sum_int(spec_delta(deal, num_players)) == 0,
{
    let tp = spec_points(deal.bid, deal.achieved as int);
    let zero = Seq::<int>::new(num_players as nat, |i: int| 0);
    lemma_sum_zeroes(zero);
    match deal.team {
        Team::Solo(d, (o1, o2, o3)) => {
            let s1 = zero.update(d as int, 3 * tp);
            let s2 = s1.update(o1 as int, -tp);
            let s3 = s2.update(o2 as int, -tp);
            lemma_sum_update(zero, d as int, 3 * tp);
            lemma_sum_update(s1, o1 as int, -tp);
            lemma_sum_update(s2, o2 as int, -tp);
            lemma_sum_update(s3, o3 as int, -tp);
        },
        Team::Duo((p1, p2), (o1, o2)) => {
            let s1 = zero.update(p1 as int, tp);
            let s2 = s1.update(p2 as int, tp);
            let s3 = s2.update(o1 as int, -tp);
            lemma_sum_update(zero, p1 as int, tp);
            lemma_sum_update(s1, p2 as int, tp);
            lemma_sum_update(s2, o1 as int, -tp);
            lemma_sum_update(s3, o2 as int, -tp);
        },
    }
}

/// Elementwise sum of two equally long integer sequences.
pub open spec fn seq_add(a: Seq<int>, b: Seq<int>) -> Seq<int> {
    Seq::new(a.len(), |i: int| a[i] + b[i])
}

/// Elementwise difference of two equally long integer sequences.
pub open spec fn seq_sub(a: Seq<int>, b: Seq<int>) -> Seq<int> {
    Seq::new(a.len(), |i: int| a[i] - b[i])
}

/// A game: the ordered seat list, the append-only deal history and the
/// cumulative score snapshots, zero-seeded.
///
/// The snapshot list always starts with the all-zero vector, so
/// `scores` holds one entry more than `deals` and `scores[i + 1]` is
/// `scores[i]` plus the delta of `deals[i]`; see [`Game::ledger`].
#[derive(Debug)]
pub struct Game {
    /// The name of the game.
    pub name: String,
    pub players: Players,
    /// Cumulative points of the game, one snapshot per played deal after
    /// the zero seed.
    pub scores: Vec<Points>,
    pub deals: Vec<Deal>,
}

impl Game {
    /// The number of seats.
    pub open spec fn num_players(self) -> int {
        self.players@.len() as int
    }

    /// The cumulative snapshot at index `i`, as a sequence of integers.
    pub open spec fn score_at(self, i: int) -> Seq<int> {
        self.scores@[i]@
    }

    /// The most recent cumulative snapshot.
    pub open spec fn last_scores(self) -> Seq<int> {
        self.scores@.last()@
    }

    /// The structural invariant: a supported seat count, at least the
    /// zero seed in `scores`, every snapshot covering every seat, the
    /// seed all zero, and consecutive snapshots never further apart than
    /// an `i16` holds — so every recorded round's delta is recoverable.
    pub open spec fn wf(self) -> bool {
        let n = self.num_players();
        &&& 4 <= n <= 7
        &&& self.scores@.len() >= 1
        &&& forall|i: int| 0 <= i < self.scores@.len() ==> (#[trigger] self.scores@[i])@.len() == n
        &&& forall|j: int| 0 <= j < n ==> self.score_at(0)[j] == 0
        &&& forall|i: int, j: int|
            1 <= i < self.scores@.len() && 0 <= j < n ==> i16::MIN <= (#[trigger] self.score_at(
                i,
            )[j]) - self.score_at(i - 1)[j] <= i16::MAX
    }

    /// The ledger invariant: every recorded deal is valid and each
    /// snapshot after the seed is the previous snapshot plus that deal's
    /// delta.  [`Game::new`] establishes it and [`Game::add_deal`]
    /// preserves it.
    pub open spec fn ledger(self) -> bool {
        let n = self.num_players();
        &&& self.scores@.len() == self.deals@.len() + 1
        &&& forall|i: int| 0 <= i < self.deals@.len() ==> (#[trigger] self.deals@[i]).wf(n)
        &&& forall|i: int|
            0 <= i < self.deals@.len() ==> self.score_at(i + 1) == seq_add(
                self.score_at(i),
                spec_delta(#[trigger] self.deals@[i], n),
            )
    }

    /// Starts a game with the given seats and an empty history, seeded
    /// with the all-zero snapshot.
    pub fn new(name: String, players: Players) -> (g: Game)
        requires
            4 <= players@.len() <= 7,
        ensures
            g.wf(),
            g.ledger(),
            g.name@ == name@,
            g.players@ == players@,
            g.deals@.len() == 0,
            g.scores@.len() == 1,
    {
        let n = players.len();
        let mut scores: Vec<Points> = Vec::new();
        scores.push(Points::new(n));
        Game { name, players, scores, deals: Vec::new() }
    }

    /// Appends a cumulative snapshot: the last snapshot plus `points`.
    ///
    /// Fails with `ScoreOverflow`, changing nothing, when some entry of
    /// the sum would leave `i16`.  [`Game::add_deal`] is the caller that
    /// keeps the ledger invariant; this operation alone only maintains
    /// the structural one.
    pub fn add_points(&mut self, points: Points) -> (r: Result<(), WhistError>)
        requires
            old(self).wf(),
            points@.len() == old(self).num_players(),
        ensures
            final(self).wf(),
            final(self).name == old(self).name,
            final(self).players == old(self).players,
            final(self).deals == old(self).deals,
            match r {
                Ok(()) => {
                    &&& final(self).scores@.len() == old(self).scores@.len() + 1
                    &&& final(self).scores@.drop_last() == old(self).scores@
                    &&& final(self).last_scores() == seq_add(old(self).last_scores(), points@)
                },
                Err(e) => {
                    &&& e == WhistError::ScoreOverflow
                    &&& *final(self) == *old(self)
                },
            },
            r is Ok <==> forall|j: int|
                0 <= j < old(self).num_players() ==> i16::MIN <= (#[trigger] old(
                    self,
                ).last_scores()[j]) + points@[j] <= i16::MAX,
    {
        let last_idx = self.scores.len() - 1;
        let summed = self.scores[last_idx].checked_plus(&points);
        match summed {
            None => {
                proof {
                    let g0 = *old(self);
                    let lastp = g0.scores@[last_idx as int];
                    assert(lastp == g0.scores@.last());
                    let j = choose|i: int|
                        0 <= i < lastp@.len() && !(i16::MIN <= (#[trigger] lastp@[i]) + points@[i]
                            <= i16::MAX);
                    assert(!(i16::MIN <= g0.last_scores()[j] + points@[j] <= i16::MAX));
                }
                Err(WhistError::ScoreOverflow)
            },
            Some(np) => {
                proof {
                    assert(np@ =~= seq_add(old(self).last_scores(), points@));
                }
                self.scores.push(np);
                proof {
                    let g0 = *old(self);
                    let g1 = *self;
                    let n = g0.num_players();
                    assert(g1.scores@.drop_last() =~= g0.scores@);
                    assert forall|j: int|
                        0 <= j < n implies i16::MIN <= (#[trigger] g0.last_scores()[j]) + points@[j]
                        <= i16::MAX by {
                        assert(g0.scores@.last()@[j] + points@[j] == np@[j]);
                        assert(np@[j] == np.0@[j] as int);
                    }
                    assert forall|i: int|
                        0 <= i < g1.scores@.len() implies (#[trigger] g1.scores@[i])@.len()
                        == n by {
                        if i < g0.scores@.len() {
                            assert(g0.scores@[i]@.len() == n);
                        } else {
                            assert(g1.scores@[i] == np);
                        }
                    }
                    assert(g1.score_at(0) == g0.score_at(0));
                    assert forall|i: int, j: int|
                        1 <= i < g1.scores@.len() && 0 <= j < n implies i16::MIN <= (
                        #[trigger] g1.score_at(i)[j]) - g1.score_at(i - 1)[j] <= i16::MAX by {
                        if i < g0.scores@.len() {
                            assert(i16::MIN <= g0.score_at(i)[j] - g0.score_at(i - 1)[j]
                                <= i16::MAX);
                            assert(g1.score_at(i) == g0.score_at(i));
                            assert(g1.score_at(i - 1) == g0.score_at(i - 1));
                        } else {
                            assert(g1.score_at(i) == np@);
                            assert(g1.score_at(i - 1) == g0.last_scores());
                            assert(np@[j] == g0.last_scores()[j] + points@[j]);
                            assert(points@[j] == points.0@[j] as int);
                        }
                    }
                }
                Ok(())
            },
        }
    }

    /// Plays one deal: validates it, appends it to the history and
    /// appends the new cumulative snapshot.
    ///
    /// On any failure nothing changes: an invalid deal reports the first
    /// failed structural check, and a sum leaving `i16` reports
    /// `ScoreOverflow`.
    pub fn add_deal(&mut self, deal: Deal) -> (r: Result<(), WhistError>)
        requires
            old(self).wf(),
        ensures
            final(self).wf(),
            final(self).name == old(self).name,
            final(self).players == old(self).players,
            match r {
                Ok(()) => {
                    &&& deal.wf(old(self).num_players())
                    &&& final(self).deals@ == old(self).deals@.push(deal)
                    &&& final(self).scores@.len() == old(self).scores@.len() + 1
                    &&& final(self).scores@.drop_last() == old(self).scores@
                    &&& final(self).last_scores() == seq_add(
                        old(self).last_scores(),
                        spec_delta(deal, old(self).num_players()),
                    )
                    &&& old(self).ledger() ==> final(self).ledger()
                },
                Err(e) => {
                    &&& *final(self) == *old(self)
                    &&& if deal.spec_validate(old(self).num_players()) is Err {
                        Err::<(), WhistError>(e) == deal.spec_validate(old(self).num_players())
                    } else {
                        e == WhistError::ScoreOverflow
                    }
                },
            },
            r is Ok <==> (deal.wf(old(self).num_players()) && forall|j: int|
                0 <= j < old(self).num_players() ==> i16::MIN <= (#[trigger] old(
                    self,
                ).last_scores()[j]) + spec_delta(deal, old(self).num_players())[j] <= i16::MAX),
    {
        let n = self.players.len();
        match deal.validate(n) {
            Err(e) => {
                return Err(e);
            },
            Ok(()) => {},
        }
        let delta = deal.to_points(n);
        match self.add_points(delta) {
            Err(e) => {
                proof {
                    assert(self.wf());
                }
                Err(e)
            },
            Ok(()) => {
                let ghost mid = *self;
                self.deals.push(deal);
                proof {
                    let g0 = *old(self);
                    let g1 = *self;
                    assert(g1.scores == mid.scores);
                    assert(g1.players == mid.players);
                    assert(mid.wf());
                    assert(g1.num_players() == mid.num_players());
                    assert forall|i: int|
                        0 <= i < g1.scores@.len() implies (#[trigger] g1.scores@[i])@.len()
                        == g1.num_players() by {
                        assert(mid.scores@[i]@.len() == mid.num_players());
                    }
                    assert forall|j: int| 0 <= j < g1.num_players() implies g1.score_at(0)[j]
                        == 0 by {
                        assert(mid.score_at(0)[j] == 0);
                    }
                    assert forall|i: int, j: int|
                        1 <= i < g1.scores@.len() && 0 <= j < g1.num_players() implies i16::MIN <= (
                    #[trigger] g1.score_at(i)[j]) - g1.score_at(i - 1)[j] <= i16::MAX by {
                        assert(i16::MIN <= mid.score_at(i)[j] - mid.score_at(i - 1)[j]
                            <= i16::MAX);
                    }
                    assert(g1.wf());
                    if g0.ledger() {
                        assert forall|i: int|
                            0 <= i < g1.deals@.len() implies (#[trigger] g1.deals@[i]).wf(
                            g1.num_players(),
                        ) by {
                            if i < g0.deals@.len() {
                                assert(g0.deals@[i].wf(g0.num_players()));
                            }
                        }
                        assert forall|i: int| 0 <= i < g1.deals@.len() implies g1.score_at(i + 1)
                            == seq_add(
                            g1.score_at(i),
                            spec_delta(#[trigger] g1.deals@[i], g1.num_players()),
                        ) by {
                            if i < g0.deals@.len() {
                                assert(g0.score_at(i + 1) == seq_add(
                                    g0.score_at(i),
                                    spec_delta(g0.deals@[i], g0.num_players()),
                                ));
                                assert(g1.scores@[i + 1] == g0.scores@[i + 1]);
                                assert(g1.scores@[i] == g0.scores@[i]);
                            } else {
                                assert(g1.score_at(i + 1) == g1.last_scores());
                            }
                        }
                    }
                }
                Ok(())
            },
        }
    }

    /// The most recent cumulative snapshot: the zero seed on a fresh
    /// game, the running totals thereafter.
    pub fn last_score(&self) -> (r: &Points)
        requires
            self.wf(),
        ensures
            r@ == self.last_scores(),
    {
        let last_idx = self.scores.len() - 1;
        &self.scores[last_idx]
    }

    /// The per-round delta that produced snapshot `n`: the elementwise
    /// difference `scores[n] - scores[n - 1]`, and the zero seed itself
    /// for `n == 0`.  Fails with `DiffOutOfRange` beyond the recorded
    /// history.
    pub fn diff(&self, n: usize) -> (r: Result<Points, WhistError>)
        requires
            self.wf(),
        ensures
            r is Err <==> n >= self.scores@.len(),
            match r {
                Ok(p) => p@ == (if n == 0 {
                    self.score_at(0)
                } else {
                    seq_sub(self.score_at(n as int), self.score_at(n as int - 1))
                }),
                Err(e) => e == WhistError::DiffOutOfRange,
            },
    {
        if n >= self.scores.len() {
            return Err(WhistError::DiffOutOfRange);
        }
        if n == 0 {
            let p = self.scores[0].clone();
            return Ok(p);
        }
        proof {
            assert(self.scores@[n as int]@.len() == self.num_players());
            assert(self.scores@[n as int - 1]@.len() == self.num_players());
            assert forall|j: int|
                0 <= j < self.scores@[n as int]@.len() implies i16::MIN <= (#[trigger] self.scores@[
                n as int]@[j]) - self.scores@[n as int - 1]@[j] <= i16::MAX by {
                assert(i16::MIN <= self.score_at(n as int)[j] - self.score_at(n as int - 1)[j]
                    <= i16::MAX);
            }
        }
        let p = self.scores[n].minus(&self.scores[n - 1]);
        proof {
            assert(p@ =~= seq_sub(self.score_at(n as int), self.score_at(n as int - 1)));
        }
        Ok(p)
    }

    /// The delta of the most recent round; the zero seed on a fresh
    /// game.  Never fails: the zero-seeded snapshot list is never empty.
    pub fn last_diff(&self) -> (r: Result<Points, WhistError>)
        requires
            self.wf(),
        ensures
            r is Ok,
            match r {
                Ok(p) => p@ == (if self.scores@.len() == 1 {
                    self.score_at(0)
                } else {
                    seq_sub(
                        self.score_at(self.scores@.len() - 1),
                        self.score_at(self.scores@.len() - 2),
                    )
                }),
                Err(_) => false,
            },
    {
        self.diff(self.scores.len() - 1)
    }
}

impl Game {
    /// Decides the structural invariant [`Game::wf`] at run time, for
    /// callers that obtained a game from outside the library.
    pub fn check_wf(&self) -> (r: bool)
        ensures
            r == self.wf(),
    {
        let n = self.players.len();
        if n < 4 || n > 7 {
            return false;
        }
        let count = self.scores.len();
        if count == 0 {
            return false;
        }
        let mut i: usize = 0;
        while i < count
            invariant
                i <= count,
                count == self.scores@.len(),
                n == self.players@.len(),
                forall|k: int| 0 <= k < i ==> (#[trigger] self.scores@[k])@.len() == n,
            decreases count - i,
        {
            if self.scores[i].len() != n {
                return false;
            }
            i = i + 1;
        }
        let mut j: usize = 0;
        while j < n
            invariant
                j <= n,
                n == self.players@.len(),
                self.scores@.len() >= 1,
                self.scores@[0]@.len() == n,
                forall|k: int| 0 <= k < j ==> self.score_at(0)[k] == 0,
            decreases n - j,
        {
            if self.scores[0].get(j) != 0 {
                proof {
                    assert(self.score_at(0)[j as int] != 0);
                }
                return false;
            }
            j = j + 1;
        }
        let mut i: usize = 1;
        while i < count
            invariant
                1 <= i <= count,
                count == self.scores@.len(),
                n == self.players@.len(),
                forall|k: int| 0 <= k < count ==> (#[trigger] self.scores@[k])@.len() == n,
                forall|a: int, b: int|
                    1 <= a < i && 0 <= b < n ==> i16::MIN <= (#[trigger] self.score_at(a)[b])
                        - self.score_at(a - 1)[b] <= i16::MAX,
            decreases count - i,
        {
            let mut j: usize = 0;
            while j < n
                invariant
                    j <= n,
                    1 <= i < count,
                    count == self.scores@.len(),
                    n == self.players@.len(),
                    forall|k: int| 0 <= k < count ==> (#[trigger] self.scores@[k])@.len() == n,
                    forall|a: int, b: int|
                        1 <= a < i && 0 <= b < n ==> i16::MIN <= (#[trigger] self.score_at(a)[b])
                            - self.score_at(a - 1)[b] <= i16::MAX,
                    forall|b: int|
                        0 <= b < j ==> i16::MIN <= (#[trigger] self.score_at(i as int)[b])
                            - self.score_at(i as int - 1)[b] <= i16::MAX,
                decreases n - j,
            {
                let wide = self.scores[i].get(j) as i32 - self.scores[i - 1].get(j) as i32;
                if wide < i16::MIN as i32 || wide > i16::MAX as i32 {
                    proof {
                        assert(!(i16::MIN <= self.score_at(i as int)[j as int] - self.score_at(
                            i as int - 1,
                        )[j as int] <= i16::MAX));
                    }
                    return false;
                }
                j = j + 1;
            }
            i = i + 1;
        }
        true
    }
}

/// Replay determinism of the ledger: two games over equally many seats
/// whose recorded histories are the same sequence of deals carry the
/// same cumulative snapshots throughout.
pub proof fn lemma_replay_deterministic(g1: Game, g2: Game)
    requires
        g1.wf(),
        g2.wf(),
        g1.ledger(),
        g2.ledger(),
        g1.players@.len() == g2.players@.len(),
        g1.deals@ == g2.deals@,
    ensures
        g1.scores@.len() == g2.scores@.len(),
        forall|i: int| 0 <= i < g1.scores@.len() ==> g1.score_at(i) == g2.score_at(i),
        g1.last_scores() == g2.last_scores(),
{
    assert forall|i: int| 0 <= i < g1.scores@.len() implies g1.score_at(i) == g2.score_at(i) by {
        lemma_scores_agree(g1, g2, i);
    }
    lemma_scores_agree(g1, g2, g1.scores@.len() - 1);
}

/// One step of [`lemma_replay_deterministic`], by induction on the
/// snapshot index.
proof fn lemma_scores_agree(g1: Game, g2: Game, i: int)
    requires
        g1.wf(),
        g2.wf(),
        g1.ledger(),
        g2.ledger(),
        g1.players@.len() == g2.players@.len(),
        g1.deals@ == g2.deals@,
        0 <= i < g1.scores@.len(),
    ensures
        g1.score_at(i) == g2.score_at(i),
    decreases i,
{
    if i == 0 {
        assert(g1.score_at(0) =~= g2.score_at(0));
    } else {
        lemma_scores_agree(g1, g2, i - 1);
        assert(g1.deals@[i - 1] == g2.deals@[i - 1]);
        assert(g1.score_at(i) == seq_add(
            g1.score_at(i - 1),
            spec_delta(g1.deals@[i - 1], g1.num_players()),
        ));
        assert(g2.score_at(i) == seq_add(
            g2.score_at(i - 1),
            spec_delta(g2.deals@[i - 1], g2.num_players()),
        ));
    }
}

/// Diff inversion: for every recorded round, the previous snapshot plus
/// the recovered per-round delta is exactly the snapshot it produced.
pub proof fn lemma_diff_inverts(g: Game, n: int)
    requires
        g.wf(),
        1 <= n < g.scores@.len(),
    ensures
        seq_add(g.score_at(n - 1), seq_sub(g.score_at(n), g.score_at(n - 1))) == g.score_at(n),
{
    assert(g.scores@[n]@.len() == g.num_players());
    assert(g.scores@[n - 1]@.len() == g.num_players());
    assert(seq_add(g.score_at(n - 1), seq_sub(g.score_at(n), g.score_at(n - 1))) =~= g.score_at(
        n,
    ));
}

} // verus!
