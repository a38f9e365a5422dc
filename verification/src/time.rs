//! Simulation time and `timescale handling.
//!
//! Time is tracked in **femtoseconds** as a `u64` ([`SimTime`]). All scheduling
//! arithmetic is on integers.
use vstd::prelude::*;

use crate::text::{
    ascii_lower, chars_of, decimal, push_decimal, str_eq, string_of, to_ascii_lower, trim, trimmed,
};
use vstd::slice::slice_subrange;

verus! {

/// SI time units expressible in a `timescale directive.
#[derive(Debug, Clone, Copy, PartialEq, Eq, Hash, Structural)]
pub enum TimeUnit {
    Fs,
    Ps,
    Ns,
    Us,
    Ms,
    S,
}

/// The text with ASCII capitals lowered.
pub open spec fn lowered(s: Seq<char>) -> Seq<char> {
    s.map_values(|c: char| ascii_lower(c))
}

/// The unit a suffix names, blanks around it and its case aside.
pub open spec fn unit_of_text(s: Seq<char>) -> Option<TimeUnit> {
    let t = lowered(trimmed(s));
    if t == "fs"@ {
        Some(TimeUnit::Fs)
    } else if t == "ps"@ {
        Some(TimeUnit::Ps)
    } else if t == "ns"@ {
        Some(TimeUnit::Ns)
    } else if t == "us"@ {
        Some(TimeUnit::Us)
    } else if t == "ms"@ {
        Some(TimeUnit::Ms)
    } else if t == "s"@ {
        Some(TimeUnit::S)
    } else {
        None
    }
}

fn lower(s: &[char]) -> (r: Vec<char>)
    ensures
        r@ == lowered(s@),
{
    let mut out: Vec<char> = Vec::new();
    let mut i: usize = 0;
    while i < s.len()
        invariant
            i <= s@.len(),
            out@ == lowered(s@.take(i as int)),
        decreases s@.len() - i,
    {
        out.push(to_ascii_lower(s[i]));
        i = i + 1;
        assert(out@ =~= lowered(s@.take(i as int)));
    }
    assert(s@.take(i as int) =~= s@);
    out
}

impl TimeUnit {
    /// Femtoseconds per unit.
    pub open spec fn femtoseconds(self) -> nat {
        match self {
            TimeUnit::Fs => 1,
            TimeUnit::Ps => 1_000,
            TimeUnit::Ns => 1_000_000,
            TimeUnit::Us => 1_000_000_000,
            TimeUnit::Ms => 1_000_000_000_000,
            TimeUnit::S => 1_000_000_000_000_000,
        }
    }

    /// The suffix of the unit.
    pub open spec fn name(self) -> Seq<char> {
        match self {
            TimeUnit::Fs => "fs"@,
            TimeUnit::Ps => "ps"@,
            TimeUnit::Ns => "ns"@,
            TimeUnit::Us => "us"@,
            TimeUnit::Ms => "ms"@,
            TimeUnit::S => "s"@,
        }
    }

    /// Femtoseconds per unit.
    pub fn fs(self) -> (r: u64)
        ensures
            r == self.femtoseconds(),
    {
        match self {
            TimeUnit::Fs => 1,
            TimeUnit::Ps => 1_000,
            TimeUnit::Ns => 1_000_000,
            TimeUnit::Us => 1_000_000_000,
            TimeUnit::Ms => 1_000_000_000_000,
            TimeUnit::S => 1_000_000_000_000_000,
        }
    }

    /// Parse a unit suffix (`fs`/`ps`/`ns`/`us`/`ms`/`s`).
    pub fn parse(s: &str) -> (r: Option<TimeUnit>)
        ensures
            r == unit_of_text(s@),
    {
        let text: Vec<char> = chars_of(s);
        let low: Vec<char> = lower(trim(text.as_slice()));
        let t: String = string_of(low.as_slice());
        if str_eq(t.as_str(), "fs") {
            Some(TimeUnit::Fs)
        } else if str_eq(t.as_str(), "ps") {
            Some(TimeUnit::Ps)
        } else if str_eq(t.as_str(), "ns") {
            Some(TimeUnit::Ns)
        } else if str_eq(t.as_str(), "us") {
            Some(TimeUnit::Us)
        } else if str_eq(t.as_str(), "ms") {
            Some(TimeUnit::Ms)
        } else if str_eq(t.as_str(), "s") {
            Some(TimeUnit::S)
        } else {
            None
        }
    }

    /// The suffix string.
    pub fn suffix(self) -> (r: &'static str)
        ensures
            r@ == self.name(),
    {
        match self {
            TimeUnit::Fs => "fs",
            TimeUnit::Ps => "ps",
            TimeUnit::Ns => "ns",
            TimeUnit::Us => "us",
            TimeUnit::Ms => "ms",
            TimeUnit::S => "s",
        }
    }
}

/// Every unit is read back from its own suffix.
pub proof fn unit_suffix_round_trip(unit: TimeUnit)
    ensures
        unit_of_text(unit.name()) == Some(unit),
{
    reveal_strlit("fs");
    reveal_strlit("ps");
    reveal_strlit("ns");
    reveal_strlit("us");
    reveal_strlit("ms");
    reveal_strlit("s");
    let t = unit.name();
    assert(trimmed(t) == t);
    assert(lowered(t) =~= t);
    assert("fs"@[0] == 'f' && "ps"@[0] == 'p' && "ns"@[0] == 'n' && "us"@[0] == 'u');
    assert("ms"@[0] == 'm' && "s"@[0] == 's');
}

/// A point in (or span of) simulation time, in femtoseconds.
#[derive(Debug, Clone, Copy, PartialEq, Eq, PartialOrd, Ord, Hash, Structural)]
pub struct SimTime(pub u64);

/// The largest of the units from seconds down to picoseconds that divides a
/// nonzero time; femtoseconds otherwise.
pub open spec fn display_unit(fs: nat) -> TimeUnit {
    if fs == 0 {
        TimeUnit::Fs
    } else if fs % TimeUnit::S.femtoseconds() == 0 {
        TimeUnit::S
    } else if fs % TimeUnit::Ms.femtoseconds() == 0 {
        TimeUnit::Ms
    } else if fs % TimeUnit::Us.femtoseconds() == 0 {
        TimeUnit::Us
    } else if fs % TimeUnit::Ns.femtoseconds() == 0 {
        TimeUnit::Ns
    } else if fs % TimeUnit::Ps.femtoseconds() == 0 {
        TimeUnit::Ps
    } else {
        TimeUnit::Fs
    }
}

impl SimTime {
    /// Time zero.
    pub fn zero() -> (r: SimTime)
        ensures
            r.0 == 0,
    {
        SimTime(0)
    }

    /// Construct from raw femtoseconds.
    pub fn from_fs(fs: u64) -> (r: SimTime)
        ensures
            r.0 == fs,
    {
        SimTime(fs)
    }

    /// Construct from an integer count of a [`TimeUnit`].
    pub fn from_units(amount: u64, unit: TimeUnit) -> (r: SimTime)
        requires
            amount * unit.femtoseconds() <= u64::MAX,
        ensures
            r.0 == amount * unit.femtoseconds(),
    {
        SimTime(amount * unit.fs())
    }

    /// Raw femtoseconds.
    pub fn as_fs(self) -> (r: u64)
        ensures
            r == self.0,
    {
        self.0
    }

    /// Saturating add of a femtosecond delta.
    pub fn saturating_add_fs(self, delta: u64) -> (r: SimTime)
        ensures
            r.0 == (if self.0 + delta > u64::MAX {
                u64::MAX as int
            } else {
                self.0 + delta
            }),
    {
        SimTime(self.0.saturating_add(delta))
    }

    /// Render in the largest unit that keeps the value integral, e.g.
    /// 5000000 femtoseconds as `5ns`.
    pub fn to_string(&self) -> (r: String)
        ensures
            ({
                let unit = display_unit(self.0 as nat);
                r@ == decimal(self.0 as nat / unit.femtoseconds()) + unit.name()
            }),
    {
        let fs: u64 = self.0;
        let unit = if fs == 0 {
            TimeUnit::Fs
        } else if fs % TimeUnit::S.fs() == 0 {
            TimeUnit::S
        } else if fs % TimeUnit::Ms.fs() == 0 {
            TimeUnit::Ms
        } else if fs % TimeUnit::Us.fs() == 0 {
            TimeUnit::Us
        } else if fs % TimeUnit::Ns.fs() == 0 {
            TimeUnit::Ns
        } else if fs % TimeUnit::Ps.fs() == 0 {
            TimeUnit::Ps
        } else {
            TimeUnit::Fs
        };
        let mut out = String::new();
        push_decimal(&mut out, fs / unit.fs());
        out.append(unit.suffix());
        assert(out@ =~= decimal(fs as nat / unit.femtoseconds()) + unit.name());
        out
    }
}

/// The rendering of a time loses nothing: the printed count times the printed
/// unit is the time.
pub proof fn time_display_is_exact(fs: nat)
    ensures
        (fs / display_unit(fs).femtoseconds()) * display_unit(fs).femtoseconds() == fs,
{
}

impl Default for SimTime {
    fn default() -> (r: SimTime)
        ensures
            r.0 == 0,
    {
        SimTime(0)
    }
}

impl std::ops::Add for SimTime {
    type Output = SimTime;

    fn add(self, rhs: SimTime) -> (r: SimTime) {
        SimTime(self.0 + rhs.0)
    }
}

impl vstd::std_specs::ops::AddSpecImpl for SimTime {
    open spec fn obeys_add_spec() -> bool {
        true
    }

    open spec fn add_req(self, rhs: SimTime) -> bool {
        self.0 + rhs.0 <= u64::MAX
    }

    open spec fn add_spec(self, rhs: SimTime) -> SimTime {
        SimTime((self.0 + rhs.0) as u64)
    }
}

impl std::ops::Sub for SimTime {
    type Output = SimTime;

    fn sub(self, rhs: SimTime) -> (r: SimTime) {
        SimTime(self.0 - rhs.0)
    }
}

impl vstd::std_specs::ops::SubSpecImpl for SimTime {
    open spec fn obeys_sub_spec() -> bool {
        true
    }

    open spec fn sub_req(self, rhs: SimTime) -> bool {
        self.0 >= rhs.0
    }

    open spec fn sub_spec(self, rhs: SimTime) -> SimTime {
        SimTime((self.0 - rhs.0) as u64)
    }
}

/// A `timescale: a time unit and a time precision, both in femtoseconds.
#[derive(Debug, Clone, Copy, PartialEq, Eq, Structural)]
pub struct Timescale {
    unit_fs: u64,
    prec_fs: u64,
}

impl Timescale {
    /// Femtoseconds of one time unit.
    pub closed spec fn unit(self) -> u64 {
        self.unit_fs
    }

    /// Femtoseconds of the precision.
    pub closed spec fn precision(self) -> u64 {
        self.prec_fs
    }

    /// Construct from a unit and precision.
    pub fn new(unit: (u64, TimeUnit), precision: (u64, TimeUnit)) -> (r: Timescale)
        requires
            unit.0 * unit.1.femtoseconds() <= u64::MAX,
            precision.0 * precision.1.femtoseconds() <= u64::MAX,
        ensures
            r.unit() == unit.0 * unit.1.femtoseconds(),
            r.precision() == precision.0 * precision.1.femtoseconds(),
    {
        Timescale { unit_fs: unit.0 * unit.1.fs(), prec_fs: precision.0 * precision.1.fs() }
    }

    /// Construct from femtoseconds.
    pub fn from_fs(unit_fs: u64, prec_fs: u64) -> (r: Timescale)
        ensures
            r.unit() == unit_fs,
            r.precision() == prec_fs,
    {
        Timescale { unit_fs, prec_fs }
    }

    /// Femtoseconds of one time unit.
    pub fn unit_fs(self) -> (r: u64)
        ensures
            r == self.unit(),
    {
        self.unit_fs
    }

    /// Femtoseconds of the precision (the rounding quantum).
    pub fn prec_fs(self) -> (r: u64)
        ensures
            r == self.precision(),
    {
        self.prec_fs
    }
}

impl Default for Timescale {
    /// `1ns / 1ps`, the de-facto default.
    fn default() -> (r: Timescale)
        ensures
            r.unit() == TimeUnit::Ns.femtoseconds(),
            r.precision() == TimeUnit::Ps.femtoseconds(),
    {
        Timescale { unit_fs: TimeUnit::Ns.fs(), prec_fs: TimeUnit::Ps.fs() }
    }
}

/// An ASCII letter.
pub open spec fn ascii_letter(c: char) -> bool {
    ('a' <= c <= 'z') || ('A' <= c <= 'Z')
}

/// The position of the first ASCII letter, or the length.
pub open spec fn letters_at(s: Seq<char>) -> int
    decreases s.len(),
{
    if s.len() == 0 || ascii_letter(s[0]) {
        0
    } else {
        1 + letters_at(s.drop_first())
    }
}

/// The count text and the unit of a spec like `1ns`, `10ps` or `100 fs`. The
/// count is whatever precedes the unit, without the blanks around it.
pub open spec fn time_spec_parts(s: Seq<char>) -> Option<(Seq<char>, TimeUnit)> {
    let t = lowered(trimmed(s));
    let k = letters_at(t);
    if k >= t.len() {
        None
    } else {
        match unit_of_text(t.skip(k)) {
            Some(unit) => Some((trimmed(t.take(k)), unit)),
            None => None,
        }
    }
}

/// Split a spec like `1ns` into its count text and its unit.
pub fn split_time_spec(s: &str) -> (r: Option<(String, TimeUnit)>)
    ensures
        match r {
            Some((count, unit)) => time_spec_parts(s@) == Some((count@, unit)),
            None => time_spec_parts(s@) is None,
        },
{
    let text: Vec<char> = chars_of(s);
    let low: Vec<char> = lower(trim(text.as_slice()));
    let n: usize = low.len();
    let mut k: usize = 0;
    assert(low@.skip(0) =~= low@);
    while k < n && !(('a' <= low[k] && low[k] <= 'z') || ('A' <= low[k] && low[k] <= 'Z'))
        invariant
            n == low@.len(),
            k <= n,
            letters_at(low@) == k + letters_at(low@.skip(k as int)),
        decreases n - k,
    {
        assert(low@.skip(k as int).drop_first() =~= low@.skip(k + 1));
        k = k + 1;
    }
    if k >= n {
        return None;
    }
    assert(low@.skip(k as int)[0] == low@[k as int]);
    assert(low@.subrange(0, k as int) =~= low@.take(k as int));
    assert(low@.subrange(k as int, n as int) =~= low@.skip(k as int));
    let unit_text: String = string_of(slice_subrange(low.as_slice(), k, n));
    match TimeUnit::parse(unit_text.as_str()) {
        Some(unit) => Some((string_of(trim(slice_subrange(low.as_slice(), 0, k))), unit)),
        None => None,
    }
}

} // verus!
