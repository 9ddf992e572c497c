use vstd::prelude::*;
use vstd::string::StringExecFns;

verus! {

/// A closed interval of integers walked from `start` to `end`.
///
/// `start == end` is a single element; `start < end` ascends and `start > end`
/// descends, so the direction needs no field of its own.
#[derive(Clone, Copy, Debug, PartialEq, Eq, Structural)]
pub struct Range {
    pub start: i64,
    pub end: i64,
}

/// The decimal digits of `m`, most significant first.
pub open spec fn digits(m: nat) -> Seq<char>
    decreases m,
{
    if m < 10 {
        seq![digit_char(m)]
    } else {
        digits(m / 10) + seq![digit_char(m % 10)]
    }
}

/// The character of a decimal digit.
pub open spec fn digit_char(d: nat) -> char {
    if d == 0 { '0' }
    else if d == 1 { '1' }
    else if d == 2 { '2' }
    else if d == 3 { '3' }
    else if d == 4 { '4' }
    else if d == 5 { '5' }
    else if d == 6 { '6' }
    else if d == 7 { '7' }
    else if d == 8 { '8' }
    else { '9' }
}

/// An integer written in decimal, with a leading `-` when it is negative.
pub open spec fn decimal(n: int) -> Seq<char> {
    if n < 0 {
        seq!['-'] + digits((-n) as nat)
    } else {
        digits(n as nat)
    }
}

impl Range {
    /// Number of elements in the range.
    pub open spec fn len(self) -> nat {
        if self.start <= self.end {
            (self.end - self.start + 1) as nat
        } else {
            (self.start - self.end + 1) as nat
        }
    }

    /// The elements from `start` to `end` inclusive, in walking order.
    pub open spec fn members(self) -> Seq<i64> {
        Seq::new(
            self.len(),
            |i: int|
                if self.start <= self.end {
                    (self.start + i) as i64
                } else {
                    (self.start - i) as i64
                },
        )
    }

    /// Whether `x`, placed right after this range, would continue it as one run:
    /// a single element is continued by either neighbour, a longer range only in
    /// its own direction.
    pub open spec fn extends(self, x: int) -> bool {
        if self.start == self.end {
            x == self.end + 1 || x == self.end - 1
        } else if self.start < self.end {
            x == self.end + 1
        } else {
            x == self.end - 1
        }
    }

    /// The text of the range: the bare value for a single element, else
    /// `{start..end}`, `start` first even when the range descends.
    pub open spec fn text(self) -> Seq<char> {
        if self.start == self.end {
            decimal(self.start as int)
        } else {
            seq!['{'] + decimal(self.start as int) + seq!['.', '.'] + decimal(self.end as int)
                + seq!['}']
        }
    }

    /// The range with the two given endpoints.
    pub fn new(start: i64, end: i64) -> (r: Range)
        ensures
            r.start == start,
            r.end == end,
    {
        Range { start, end }
    }

    /// The range of the half-open interval `[start, end)`, that is `[start, end - 1]`;
    /// `None` when `end` is `i64::MIN`, whose predecessor is not an `i64`.
    pub fn from_half_open(start: i64, end: i64) -> (r: Option<Range>)
        ensures
            end == i64::MIN <==> r is None,
            r matches Some(range) ==> range.start == start && range.end == end - 1,
    {
        if end == i64::MIN {
            None
        } else {
            Some(Range { start, end: end - 1 })
        }
    }

    /// First element of the range.
    pub fn start(&self) -> (r: i64)
        ensures
            r == self.start,
    {
        self.start
    }

    /// Last element of the range.
    pub fn end(&self) -> (r: i64)
        ensures
            r == self.end,
    {
        self.end
    }
    /// Every element of the range, from `start` to `end` inclusive: upward when
    /// `start <= end`, downward otherwise.
    pub fn into_iter(self) -> (r: Vec<i64>)
        ensures
            r@ == self.members(),
    {
        let mut v: Vec<i64> = Vec::new();
        let mut x: i64 = self.start;
        if self.start <= self.end {
            loop
                invariant_except_break
                    v@ == self.members().take(x - self.start),
                invariant
                    self.start <= x <= self.end,
                ensures
                    v@ == self.members(),
                decreases self.end - x,
            {
                assert(self.members().take(x - self.start + 1) =~= v@.push(x));
                v.push(x);
                if x == self.end {
                    assert(v@ =~= self.members());
                    break;
                }
                x = x + 1;
            }
        } else {
            loop
                invariant_except_break
                    v@ == self.members().take(self.start - x),
                invariant
                    self.end <= x <= self.start,
                ensures
                    v@ == self.members(),
                decreases x - self.end,
            {
                assert(self.members().take(self.start - x + 1) =~= v@.push(x));
                v.push(x);
                if x == self.end {
                    assert(v@ =~= self.members());
                    break;
                }
                x = x - 1;
            }
        }
        v
    }

    /// The text of the range: the bare value when `start == end`, else
    /// `{start..end}`.
    pub fn to_string(&self) -> (r: String)
        ensures
            r@ == self.text(),
    {
        let mut s = String::new();
        if self.start == self.end {
            push_decimal(&mut s, self.start);
        } else {
            proof {
                reveal_strlit("{");
                reveal_strlit("..");
                reveal_strlit("}");
            }
            s.append("{");
            push_decimal(&mut s, self.start);
            s.append("..");
            push_decimal(&mut s, self.end);
            s.append("}");
        }
        s
    }
}

/// The text of a decimal digit.
fn digit_text(d: u64) -> (r: &'static str)
    requires
        d < 10,
    ensures
        r@ == seq![digit_char(d as nat)],
{
    proof {
        reveal_strlit("0");
        reveal_strlit("1");
        reveal_strlit("2");
        reveal_strlit("3");
        reveal_strlit("4");
        reveal_strlit("5");
        reveal_strlit("6");
        reveal_strlit("7");
        reveal_strlit("8");
        reveal_strlit("9");
    }
    if d == 0 {
        "0"
    } else if d == 1 {
        "1"
    } else if d == 2 {
        "2"
    } else if d == 3 {
        "3"
    } else if d == 4 {
        "4"
    } else if d == 5 {
        "5"
    } else if d == 6 {
        "6"
    } else if d == 7 {
        "7"
    } else if d == 8 {
        "8"
    } else {
        "9"
    }
}

/// Appends the decimal digits of `m` to `s`.
fn push_digits(s: &mut String, m: u64)
    ensures
        final(s)@ == old(s)@ + digits(m as nat),
    decreases m,
{
    if m >= 10 {
        push_digits(s, m / 10);
    }
    s.append(digit_text(m % 10));
    assert(final(s)@ =~= old(s)@ + digits(m as nat));
}

/// Appends `n` written in decimal to `s`.
fn push_decimal(s: &mut String, n: i64)
    ensures
        final(s)@ == old(s)@ + decimal(n as int),
{
    if n < 0 {
        proof {
            reveal_strlit("-");
        }
        s.append("-");
        let m: u64 = (-(n as i128)) as u64;
        push_digits(s, m);
    } else {
        push_digits(s, n as u64);
    }
    assert(final(s)@ =~= old(s)@ + decimal(n as int));
}

/// The texts of the ranges `rs`, separated by single spaces.
pub open spec fn joined(rs: Seq<Range>) -> Seq<char>
    decreases rs.len(),
{
    if rs.len() == 0 {
        seq![]
    } else if rs.len() == 1 {
        rs[0].text()
    } else {
        joined(rs.drop_last()) + seq![' '] + rs.last().text()
    }
}

/// The one-line summary of a list of ranges: each range's text, separated by
/// single spaces.
pub fn join_ranges(ranges: &Vec<Range>) -> (r: String)
    ensures
        r@ == joined(ranges@),
{
    let mut s = String::new();
    let mut i: usize = 0;
    while i < ranges.len()
        invariant
            i <= ranges.len(),
            s@ == joined(ranges@.take(i as int)),
        decreases ranges.len() - i,
    {
        if i > 0 {
            proof {
                reveal_strlit(" ");
            }
            s.append(" ");
        }
        let t = ranges[i].to_string();
        s.append(t.as_str());
        proof {
            let taken = ranges@.take(i + 1);
            assert(taken.drop_last() =~= ranges@.take(i as int));
            assert(taken.last() == ranges@[i as int]);
            if i == 0 {
                assert(joined(ranges@.take(0)) =~= Seq::<char>::empty());
                assert(s@ =~= joined(taken));
            }
        }
        i = i + 1;
    }
    assert(ranges@.take(ranges.len() as int) =~= ranges@);
    s
}

} // verus!
