//! Small text building blocks: decimal numbers and label lookups.
use vstd::prelude::*;
use vstd::string::*;

verus! {

/// The decimal text of one digit.
pub open spec fn digit_text(d: nat) -> Seq<char> {
    if d == 0 {
        "0"@
    } else if d == 1 {
        "1"@
    } else if d == 2 {
        "2"@
    } else if d == 3 {
        "3"@
    } else if d == 4 {
        "4"@
    } else if d == 5 {
        "5"@
    } else if d == 6 {
        "6"@
    } else if d == 7 {
        "7"@
    } else if d == 8 {
        "8"@
    } else {
        "9"@
    }
}

/// The decimal text of a natural number, most significant digit first.
pub open spec fn decimal(n: nat) -> Seq<char>
    decreases n,
{
    if n < 10 {
        digit_text(n)
    } else {
        decimal(n / 10) + digit_text(n % 10)
    }
}

/// The decimal text of an integer, with a leading minus sign when negative.
pub open spec fn signed_decimal(v: int) -> Seq<char> {
    if v < 0 {
        "-"@ + decimal((-v) as nat)
    } else {
        decimal(v as nat)
    }
}

fn digit_str(d: u64) -> (r: &'static str)
    requires
        d < 10,
    ensures
        r@ == digit_text(d as nat),
{
    if d == 0 {
        "0"
    } else if d == 1 {
        "1"
    } else if d == 2 {
        "2"
    } else if d == 3 {
        "3"
    } else if d == 4 {
        "4"
    } else if d == 5 {
        "5"
    } else if d == 6 {
        "6"
    } else if d == 7 {
        "7"
    } else if d == 8 {
        "8"
    } else {
        "9"
    }
}

/// Appends the decimal text of `n`.
pub fn push_decimal(out: &mut String, n: u64)
    ensures
        final(out)@ == old(out)@ + decimal(n as nat),
    decreases n,
{
    if n >= 10 {
        push_decimal(out, n / 10);
        out.append(digit_str(n % 10));
        assert(final(out)@ =~= old(out)@ + decimal(n as nat));
    } else {
        out.append(digit_str(n));
    }
}

/// Appends the decimal text of `v`, signed.
pub fn push_signed(out: &mut String, v: i64)
    ensures
        final(out)@ == old(out)@ + signed_decimal(v as int),
{
    if v < 0 {
        out.append("-");
        let magnitude: u64 = (-(v as i128)) as u64;
        push_decimal(out, magnitude);
        assert(final(out)@ =~= old(out)@ + signed_decimal(v as int));
    } else {
        push_decimal(out, v as u64);
    }
}

/// The decimal text of `v`, signed, as a new string.
pub fn signed_text(v: i64) -> (r: String)
    ensures
        r@ == signed_decimal(v as int),
{
    let mut out = String::new();
    push_signed(&mut out, v);
    assert(out@ =~= signed_decimal(v as int));
    out
}

/// One row of the race table: a provider race code and its label.
pub struct RaceLabel {
    pub code: u32,
    pub label: String,
}

/// One row of the map table: a provider map identifier and its label.
pub struct MapLabel {
    pub id: String,
    pub label: String,
}

/// The static lookup tables used when rendering summaries.
pub struct Labels {
    pub races: Vec<RaceLabel>,
    pub maps: Vec<MapLabel>,
}

/// The first row of `races` with the given code, if any.
pub open spec fn first_race_row(races: Seq<RaceLabel>, code: u32) -> Option<int> {
    if exists|i: int| 0 <= i < races.len() && races[i].code == code {
        Some(
            choose|i: int|
                0 <= i < races.len() && races[i].code == code && forall|j: int|
                    0 <= j < i ==> races[j].code != code,
        )
    } else {
        None
    }
}

/// The first row of `maps` with the given identifier, if any.
pub open spec fn first_map_row(maps: Seq<MapLabel>, id: Seq<char>) -> Option<int> {
    if exists|i: int| 0 <= i < maps.len() && maps[i].id@ == id {
        Some(
            choose|i: int|
                0 <= i < maps.len() && maps[i].id@ == id && forall|j: int|
                    0 <= j < i ==> maps[j].id@ != id,
        )
    } else {
        None
    }
}

/// The label of a race code: the first matching row's label, or the code in decimal
/// when the table has no row for it.
pub open spec fn race_text(labels: &Labels, code: u32) -> Seq<char> {
    match first_race_row(labels.races@, code) {
        Some(i) => labels.races@[i].label@,
        None => decimal(code as nat),
    }
}

/// The label of a map: the first matching row's label, or the identifier itself
/// when the table has no row for it.
pub open spec fn map_text(labels: &Labels, id: Seq<char>) -> Seq<char> {
    match first_map_row(labels.maps@, id) {
        Some(i) => labels.maps@[i].label@,
        None => id,
    }
}

impl Labels {
    /// Appends the label of a race code.
    pub fn push_race(&self, out: &mut String, code: u32)
        ensures
            final(out)@ == old(out)@ + race_text(self, code),
    {
        let mut i: usize = 0;
        while i < self.races.len()
            invariant
                i <= self.races@.len(),
                forall|j: int| 0 <= j < i ==> self.races@[j].code != code,
                out@ == old(out)@,
            decreases self.races@.len() - i,
        {
            if self.races[i].code == code {
                proof {
                    let k = choose|k: int|
                        0 <= k < self.races@.len() && self.races@[k].code == code && forall|j: int|
                            0 <= j < k ==> self.races@[j].code != code;
                    assert(0 <= i < self.races@.len() && self.races@[i as int].code == code);
                    if k > i {
                        assert(self.races@[i as int].code != code);
                    }
                    assert(first_race_row(self.races@, code) == Some(i as int));
                }
                out.append(self.races[i].label.as_str());
                return;
            }
            i = i + 1;
        }
        push_decimal(out, code as u64);
    }

    /// Appends the label of a map identifier.
    pub fn push_map(&self, out: &mut String, id: &String)
        ensures
            final(out)@ == old(out)@ + map_text(self, id@),
    {
        let mut i: usize = 0;
        while i < self.maps.len()
            invariant
                i <= self.maps@.len(),
                forall|j: int| 0 <= j < i ==> self.maps@[j].id@ != id@,
                out@ == old(out)@,
            decreases self.maps@.len() - i,
        {
            if self.maps[i].id == *id {
                proof {
                    let k = choose|k: int|
                        0 <= k < self.maps@.len() && self.maps@[k].id@ == id@ && forall|j: int|
                            0 <= j < k ==> self.maps@[j].id@ != id@;
                    assert(0 <= i < self.maps@.len() && self.maps@[i as int].id@ == id@);
                    if k > i {
                        assert(self.maps@[i as int].id@ != id@);
                    }
                    assert(first_map_row(self.maps@, id@) == Some(i as int));
                }
                out.append(self.maps[i].label.as_str());
                return;
            }
            i = i + 1;
        }
        out.append(id.as_str());
    }
}

} // verus!
