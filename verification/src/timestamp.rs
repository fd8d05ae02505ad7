//! Calendar timestamps, read once per run from the local clock, and their
//! rendering into the millisecond-precision workspace name.
use vstd::prelude::*;
use crate::decimal::{lemma_pad_len, lemma_seq_val_pad, pad_seq, pow10, zero_pad};

verus! {

/// A local calendar instant, split into plain fields.
#[derive(Clone, Copy, Debug, PartialEq, Eq, Structural)]
pub struct TimeParts {
    pub year: i32,
    pub month: u32,
    pub day: u32,
    pub hour: u32,
    pub minute: u32,
    pub second: u32,
    pub millis: u32,
}

impl TimeParts {
    /// Field ranges as the calendar keeps them. Milliseconds may reach 1999
    /// during a leap second.
    pub open spec fn wf(self) -> bool {
        &&& -262144 < self.year < 262144
        &&& 1 <= self.month <= 12
        &&& 1 <= self.day <= 31
        &&& self.hour <= 23
        &&& self.minute <= 59
        &&& self.second <= 59
        &&& self.millis <= 1999
    }
}

/// The year field rendered to at least four digits, with a leading minus
/// sign for years before year zero.
pub open spec fn year_seq(y: int) -> Seq<char> {
    if y < 0 {
        seq!['-'] + pad_seq((-y) as nat, 4)
    } else {
        pad_seq(y as nat, 4)
    }
}

/// The rendered timestamp: year, month, day, hour, minute, second and
/// millisecond, zero-padded and separated by dashes.
pub open spec fn timestamp_seq(t: TimeParts) -> Seq<char> {
    year_seq(t.year as int) + seq!['-'] + pad_seq(t.month as nat, 2) + seq!['-'] + pad_seq(
        t.day as nat,
        2,
    ) + seq!['-'] + pad_seq(t.hour as nat, 2) + seq!['-'] + pad_seq(t.minute as nat, 2) + seq!['-']
        + pad_seq(t.second as nat, 2) + seq!['-'] + pad_seq(t.millis as nat, 3)
}

/// Relies on `chrono::Local::now` and chrono's `Datelike` / `Timelike`
/// accessors: one clock reading, handed out as plain calendar fields.
/// chrono's `NaiveDate` limits years to fewer than 262144 in magnitude,
/// months to 1..=12 and days to 1..=31; `Timelike` keeps hours below 24,
/// minutes and seconds below 60, and `timestamp_subsec_millis` below 2000
/// (1000..=1999 only during a leap second).
#[verifier::external_body]
fn local_time_parts() -> (t: TimeParts)
    ensures
        t.wf(),
{
    let now = chrono::Local::now();
    TimeParts {
        year: chrono::Datelike::year(&now),
        month: chrono::Datelike::month(&now),
        day: chrono::Datelike::day(&now),
        hour: chrono::Timelike::hour(&now),
        minute: chrono::Timelike::minute(&now),
        second: chrono::Timelike::second(&now),
        millis: now.timestamp_subsec_millis(),
    }
}

/// Read the local clock once and return the calendar fields of the instant.
pub fn current_timestamp() -> (t: TimeParts)
    ensures
        t.wf(),
{
    local_time_parts()
}

/// Render the year to at least four digits, minus sign first for years
/// before year zero.
fn year_part(y: i32) -> (s: String)
    ensures
        s@ == year_seq(y as int),
{
    if y < 0 {
        let mag: u32 = (-(y as i64)) as u32;
        let mut s = String::from_str("-");
        proof {
            reveal_strlit("-");
            assert(s@ =~= seq!['-']);
        }
        s.append(zero_pad(mag, 4).as_str());
        proof {
            assert(s@ =~= year_seq(y as int));
        }
        s
    } else {
        zero_pad(y as u32, 4)
    }
}

/// Render a timestamp in the workspace-name form
/// `YYYY-MM-DD-HH-MM-SS-mmm`.
pub fn format_timestamp(t: &TimeParts) -> (s: String)
    ensures
        s@ == timestamp_seq(*t),
{
    let mut s = year_part(t.year);
    proof {
        reveal_strlit("-");
        assert("-"@ =~= seq!['-']);
    }
    s.append("-");
    s.append(zero_pad(t.month, 2).as_str());
    s.append("-");
    s.append(zero_pad(t.day, 2).as_str());
    s.append("-");
    s.append(zero_pad(t.hour, 2).as_str());
    s.append("-");
    s.append(zero_pad(t.minute, 2).as_str());
    s.append("-");
    s.append(zero_pad(t.second, 2).as_str());
    s.append("-");
    s.append(zero_pad(t.millis, 3).as_str());
    proof {
        assert(s@ =~= timestamp_seq(*t));
    }
    s
}

/// The magnitude of the year field.
pub open spec fn year_mag(y: int) -> nat {
    if y < 0 {
        (-y) as nat
    } else {
        y as nat
    }
}

/// The middle fields (month through second) always pad to exactly two
/// digits, so the rendering decomposes as year, sixteen characters of
/// separators and two-digit fields, then the milliseconds.
proof fn lemma_field_widths(t: TimeParts)
    requires
        t.wf(),
    ensures
        year_seq(t.year as int).len() == (if t.year < 0 {
            1int
        } else {
            0int
        }) + pad_seq(year_mag(t.year as int), 4).len(),
        pad_seq(t.month as nat, 2).len() == 2,
        pad_seq(t.day as nat, 2).len() == 2,
        pad_seq(t.hour as nat, 2).len() == 2,
        pad_seq(t.minute as nat, 2).len() == 2,
        pad_seq(t.second as nat, 2).len() == 2,
        timestamp_seq(t).len() == year_seq(t.year as int).len() + 16 + pad_seq(
            t.millis as nat,
            3,
        ).len(),
{
    assert(pow10(0nat) == 1);
    assert(pow10(1nat) == 10);
    assert(pow10(2nat) == 100);
    lemma_pad_len(t.month as nat, 2);
    lemma_pad_len(t.day as nat, 2);
    lemma_pad_len(t.hour as nat, 2);
    lemma_pad_len(t.minute as nat, 2);
    lemma_pad_len(t.second as nat, 2);
}

/// Each field of the rendering stands at its offset after the year.
proof fn lemma_field_extraction(t: TimeParts)
    requires
        t.wf(),
    ensures
        ({
            let s = timestamp_seq(t);
            let yl = year_seq(t.year as int).len() as int;
            &&& s.subrange(0, yl) == year_seq(t.year as int)
            &&& s[yl] == '-'
            &&& s.subrange(yl + 1, yl + 3) == pad_seq(t.month as nat, 2)
            &&& s.subrange(yl + 4, yl + 6) == pad_seq(t.day as nat, 2)
            &&& s.subrange(yl + 7, yl + 9) == pad_seq(t.hour as nat, 2)
            &&& s.subrange(yl + 10, yl + 12) == pad_seq(t.minute as nat, 2)
            &&& s.subrange(yl + 13, yl + 15) == pad_seq(t.second as nat, 2)
            &&& s.subrange(yl + 16, s.len() as int) == pad_seq(t.millis as nat, 3)
        }),
{
    lemma_field_widths(t);
    let s = timestamp_seq(t);
    let yl = year_seq(t.year as int).len() as int;
    assert(s.subrange(0, yl) =~= year_seq(t.year as int));
    assert(s.subrange(yl + 1, yl + 3) =~= pad_seq(t.month as nat, 2));
    assert(s.subrange(yl + 4, yl + 6) =~= pad_seq(t.day as nat, 2));
    assert(s.subrange(yl + 7, yl + 9) =~= pad_seq(t.hour as nat, 2));
    assert(s.subrange(yl + 10, yl + 12) =~= pad_seq(t.minute as nat, 2));
    assert(s.subrange(yl + 13, yl + 15) =~= pad_seq(t.second as nat, 2));
    assert(s.subrange(yl + 16, s.len() as int) =~= pad_seq(t.millis as nat, 3));
}

/// The rendering announces the year's sign in its first character and its
/// digit count at the first dash.
proof fn lemma_year_shape(t: TimeParts)
    requires
        t.wf(),
    ensures
        ({
            let s = timestamp_seq(t);
            let neg = t.year < 0;
            let pl = pad_seq(year_mag(t.year as int), 4).len() as int;
            let yl = (if neg {
                1int
            } else {
                0int
            }) + pl;
            &&& (s[0] == '-' <==> neg)
            &&& s[yl] == '-'
            &&& forall|i: int|
                (if neg {
                    1int
                } else {
                    0int
                }) <= i < yl ==> s[i] != '-'
            &&& year_seq(t.year as int).subrange(
                if neg {
                    1int
                } else {
                    0int
                },
                yl,
            ) == pad_seq(year_mag(t.year as int), 4)
        }),
{
    lemma_field_widths(t);
    lemma_field_extraction(t);
    crate::decimal::lemma_pad_no_dash(year_mag(t.year as int), 4);
    let s = timestamp_seq(t);
    let neg = t.year < 0;
    let sg: int = if neg {
        1
    } else {
        0
    };
    let pl = pad_seq(year_mag(t.year as int), 4).len() as int;
    let yl = sg + pl;
    let ys = year_seq(t.year as int);
    assert(ys.subrange(sg, yl) =~= pad_seq(year_mag(t.year as int), 4));
    assert forall|i: int| sg <= i < yl implies s[i] != '-' by {
        assert(s[i] == ys[i]);
        assert(ys[i] == pad_seq(year_mag(t.year as int), 4)[i - sg]);
    }
    assert(s[0] == ys[0]);
    if neg {
        assert(ys[0] == '-');
    } else {
        assert(ys[0] == pad_seq(year_mag(t.year as int), 4)[0]);
    }
}

/// The rendered timestamp determines the instant: instants that differ in
/// any field — in particular in their millisecond — render to different
/// names. This holds over the whole range the clock can report, negative
/// years and leap-second milliseconds included.
pub proof fn lemma_timestamp_seq_injective(a: TimeParts, b: TimeParts)
    requires
        a.wf(),
        b.wf(),
        timestamp_seq(a) == timestamp_seq(b),
    ensures
        a == b,
{
    lemma_field_widths(a);
    lemma_field_widths(b);
    lemma_year_shape(a);
    lemma_year_shape(b);
    let s = timestamp_seq(a);
    let nega = a.year < 0;
    let negb = b.year < 0;
    // the first character announces the sign, so the signs agree
    assert(nega == negb);
    let sg: int = if nega {
        1
    } else {
        0
    };
    let pla = pad_seq(year_mag(a.year as int), 4).len() as int;
    let plb = pad_seq(year_mag(b.year as int), 4).len() as int;
    // the first dash after the sign ends the year digits in both
    // renderings, so the year fields have one width
    if pla < plb {
        assert(s[sg + pla] == '-');
        assert(timestamp_seq(b)[sg + pla] != '-');
    }
    if plb < pla {
        assert(s[sg + plb] != '-');
        assert(timestamp_seq(b)[sg + plb] == '-');
    }
    assert(pla == plb);
    let yl = sg + pla;
    lemma_field_extraction(a);
    lemma_field_extraction(b);
    assert(year_seq(a.year as int) == year_seq(b.year as int));
    assert(pad_seq(year_mag(a.year as int), 4) == pad_seq(year_mag(b.year as int), 4));
    lemma_seq_val_pad(year_mag(a.year as int), 4);
    lemma_seq_val_pad(year_mag(b.year as int), 4);
    assert(a.year == b.year);
    lemma_seq_val_pad(a.month as nat, 2);
    lemma_seq_val_pad(b.month as nat, 2);
    lemma_seq_val_pad(a.day as nat, 2);
    lemma_seq_val_pad(b.day as nat, 2);
    lemma_seq_val_pad(a.hour as nat, 2);
    lemma_seq_val_pad(b.hour as nat, 2);
    lemma_seq_val_pad(a.minute as nat, 2);
    lemma_seq_val_pad(b.minute as nat, 2);
    lemma_seq_val_pad(a.second as nat, 2);
    lemma_seq_val_pad(b.second as nat, 2);
    lemma_seq_val_pad(a.millis as nat, 3);
    lemma_seq_val_pad(b.millis as nat, 3);
}

} // verus!
