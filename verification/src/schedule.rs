//! Weekly schedules: the set of ISO weekdays on which a habit is due, read
//! from and written as a pattern.

use crate::error::CliError;
use crate::model::views_of;
use crate::sorting::{sort_vec, stable_sort, Ascending};
use crate::text::{join, joined, lowercase_of, str_eq, to_chars, trim, trim_bounds, trimmed};
use vstd::prelude::*;

verus! {

/// The days of the week on which a habit is scheduled, as ISO weekday
/// numbers.
#[derive(Debug)]
pub struct Schedule {
    pub kind: String,
    pub days: Vec<u8>,
}

pub struct ScheduleView {
    pub kind: Seq<char>,
    pub days: Seq<u8>,
}

impl View for Schedule {
    type V = ScheduleView;

    open spec fn view(&self) -> ScheduleView {
        ScheduleView { kind: self.kind@, days: self.days@ }
    }
}

impl Clone for Schedule {
    fn clone(&self) -> (r: Self)
        ensures
            r@ == self@,
    {
        Schedule { kind: self.kind.clone(), days: self.days.clone() }
    }
}


/// The three-letter name of an ISO weekday.
pub open spec fn day_name(d: u8) -> Option<Seq<char>> {
    if d == 1 {
        Some("mon"@)
    } else if d == 2 {
        Some("tue"@)
    } else if d == 3 {
        Some("wed"@)
    } else if d == 4 {
        Some("thu"@)
    } else if d == 5 {
        Some("fri"@)
    } else if d == 6 {
        Some("sat"@)
    } else if d == 7 {
        Some("sun"@)
    } else {
        None
    }
}

/// The ISO weekday that a three-letter name stands for.
pub open spec fn day_of_name(t: Seq<char>) -> Option<u8> {
    if t == "mon"@ {
        Some(1u8)
    } else if t == "tue"@ {
        Some(2u8)
    } else if t == "wed"@ {
        Some(3u8)
    } else if t == "thu"@ {
        Some(4u8)
    } else if t == "fri"@ {
        Some(5u8)
    } else if t == "sat"@ {
        Some(6u8)
    } else if t == "sun"@ {
        Some(7u8)
    } else {
        None
    }
}

/// The three-letter name of an ISO weekday.
pub fn iso_to_day_name(d: u8) -> (r: Option<&'static str>)
    ensures
        r is Some <==> 1 <= d <= 7,
        r is Some ==> day_name(d) == Some(r->0@),
{
    match d {
        1 => Some("mon"),
        2 => Some("tue"),
        3 => Some("wed"),
        4 => Some("thu"),
        5 => Some("fri"),
        6 => Some("sat"),
        7 => Some("sun"),
        _ => None,
    }
}

/// The ISO weekday named by the characters `cs[from..to]`.
fn day_from_name(cs: &Vec<char>, from: usize, to: usize) -> (r: Option<u8>)
    requires
        from <= to <= cs@.len(),
    ensures
        r == day_of_name(cs@.subrange(from as int, to as int)),
{
    let ghost t = cs@.subrange(from as int, to as int);
    proof {
        reveal_strlit("mon");
        reveal_strlit("tue");
        reveal_strlit("wed");
        reveal_strlit("thu");
        reveal_strlit("fri");
        reveal_strlit("sat");
        reveal_strlit("sun");
    }
    assert("mon"@.len() == 3 && "tue"@.len() == 3 && "wed"@.len() == 3 && "thu"@.len() == 3);
    assert("fri"@.len() == 3 && "sat"@.len() == 3 && "sun"@.len() == 3);
    assert("mon"@ =~= seq!['m', 'o', 'n']);
    assert("tue"@ =~= seq!['t', 'u', 'e']);
    assert("wed"@ =~= seq!['w', 'e', 'd']);
    assert("thu"@ =~= seq!['t', 'h', 'u']);
    assert("fri"@ =~= seq!['f', 'r', 'i']);
    assert("sat"@ =~= seq!['s', 'a', 't']);
    assert("sun"@ =~= seq!['s', 'u', 'n']);
    if to - from != 3 {
        assert(t.len() != 3);
        return None;
    }
    let a = cs[from];
    let b = cs[from + 1];
    let c = cs[from + 2];
    assert(t =~= seq![a, b, c]);
    if a == 'm' && b == 'o' && c == 'n' {
        assert(t =~= "mon"@);
        Some(1)
    } else if a == 't' && b == 'u' && c == 'e' {
        assert(t =~= "tue"@);
        Some(2)
    } else if a == 'w' && b == 'e' && c == 'd' {
        assert(t =~= "wed"@);
        Some(3)
    } else if a == 't' && b == 'h' && c == 'u' {
        assert(t =~= "thu"@);
        Some(4)
    } else if a == 'f' && b == 'r' && c == 'i' {
        assert(t =~= "fri"@);
        Some(5)
    } else if a == 's' && b == 'a' && c == 't' {
        assert(t =~= "sat"@);
        Some(6)
    } else if a == 's' && b == 'u' && c == 'n' {
        assert(t =~= "sun"@);
        Some(7)
    } else {
        assert(t[0] == a && t[1] == b && t[2] == c);
        None
    }
}

/// The state of splitting `s` at its commas: the parts that a comma has
/// closed, and the part still open.
pub open spec fn split_state(s: Seq<char>) -> (Seq<Seq<char>>, Seq<char>)
    decreases s.len(),
{
    if s.len() == 0 {
        (Seq::empty(), Seq::empty())
    } else {
        let (done, cur) = split_state(s.drop_last());
        if s.last() == ',' {
            (done.push(cur), Seq::empty())
        } else {
            (done, cur.push(s.last()))
        }
    }
}

/// The parts of `s` between its commas; one more than there are commas.
pub open spec fn split_commas(s: Seq<char>) -> Seq<Seq<char>> {
    let (done, cur) = split_state(s);
    done.push(cur)
}

/// The day set after one more part: a blank part changes nothing, a day
/// name adds its day, anything else spoils the list.
pub open spec fn with_part(acc: Option<Set<u8>>, part: Seq<char>) -> Option<Set<u8>> {
    match acc {
        None => None,
        Some(set) => {
            let t = trimmed(part);
            if t.len() == 0 {
                Some(set)
            } else {
                match day_of_name(t) {
                    Some(d) => Some(set.insert(d)),
                    None => None,
                }
            }
        },
    }
}

/// The days that the parts name, or `None` where a part is neither blank
/// nor a day name.
pub open spec fn named_days(parts: Seq<Seq<char>>) -> Option<Set<u8>>
    decreases parts.len(),
{
    if parts.len() == 0 {
        Some(Set::empty())
    } else {
        with_part(named_days(parts.drop_last()), parts.last())
    }
}

/// The days `lo..=hi`.
pub open spec fn day_span(lo: u8, hi: u8) -> Set<u8> {
    Set::new(|d: u8| lo <= d <= hi)
}

/// The days that a trimmed, lowercase pattern stands for: a preset, or a
/// list of day names that names at least one day.
pub open spec fn pattern_days(p: Seq<char>) -> Option<Set<u8>> {
    if p == "everyday"@ {
        Some(day_span(1, 7))
    } else if p == "weekdays"@ {
        Some(day_span(1, 5))
    } else if p == "weekends"@ {
        Some(day_span(6, 7))
    } else {
        match named_days(split_commas(p)) {
            Some(set) => if exists|d: u8| set.contains(d) {
                Some(set)
            } else {
                None
            },
            None => None,
        }
    }
}

/// Strictly increasing ISO weekdays: the form in which a schedule is kept.
pub open spec fn canonical_days(days: Seq<u8>) -> bool {
    &&& forall|i: int| 0 <= i < days.len() ==> 1 <= #[trigger] days[i] <= 7
    &&& forall|i: int, j: int| 0 <= i < j < days.len() ==> days[i] < days[j]
}

/// Whether `days` lists exactly the days of `set`, in canonical form.
pub open spec fn lists_days(days: Seq<u8>, set: Set<u8>) -> bool {
    &&& canonical_days(days)
    &&& forall|d: u8| days.contains(d) <==> set.contains(d)
}

/// The one kind of schedule there is.
pub open spec fn schedule_kind() -> Seq<char> {
    "days_of_week"@
}

/// The message for a pattern that cannot be read.
pub open spec fn bad_pattern_text(p: Seq<char>, raw: Seq<char>) -> Seq<char> {
    if p.len() == 0 {
        "Invalid schedule pattern"@
    } else {
        "Invalid schedule pattern: "@ + raw
    }
}

/// What reading a pattern gives, `p` being its trimmed, lowercase form and
/// `raw` the text as it was written.
pub open spec fn reads_pattern(p: Seq<char>, raw: Seq<char>, r: Result<Schedule, CliError>) -> bool {
    if p.len() > 0 && pattern_days(p) is Some {
        &&& r is Ok
        &&& r->Ok_0@.kind == schedule_kind()
        &&& lists_days(r->Ok_0@.days, pattern_days(p)->0)
    } else {
        r is Err && r->Err_0.is_usage(bad_pattern_text(p, raw))
    }
}

/// Whether the flags `seen[1..=7]` mark exactly the days of `acc`.
spec fn marks(seen: Seq<bool>, ok: bool, acc: Option<Set<u8>>) -> bool {
    &&& seen.len() == 8
    &&& !seen[0]
    &&& ok == (acc is Some)
    &&& ok ==> forall|d: u8| #[trigger] acc->0.contains(d) <==> d < 8 && seen[d as int]
}

/// Takes one part of the list into the flags.
fn take_part(part: &Vec<char>, seen: &mut Vec<bool>, ok: &mut bool, Ghost(acc): Ghost<Option<Set<u8>>>)
    requires
        marks(old(seen)@, *old(ok), acc),
    ensures
        marks(final(seen)@, *final(ok), with_part(acc, part@)),
{
    if !*ok {
        return ;
    }
    let (from, to) = trim_bounds(part);
    if from == to {
        return ;
    }
    match day_from_name(part, from, to) {
        Some(d) => {
            proof {
                reveal_strlit("mon");
                reveal_strlit("tue");
                reveal_strlit("wed");
                reveal_strlit("thu");
                reveal_strlit("fri");
                reveal_strlit("sat");
                reveal_strlit("sun");
            }
            assert(1 <= d <= 7);
            let ghost before = seen@;
            seen.set(d as usize, true);
            assert(with_part(acc, part@) == Some(acc->0.insert(d)));
            assert forall|e: u8| acc->0.insert(d).contains(e) <==> e < 8 && seen@[e as int] by {
                assert(acc->0.insert(d).contains(e) == (e == d || acc->0.contains(e)));
                assert(acc->0.contains(e) <==> e < 8 && before[e as int]);
            }
        },
        None => {
            *ok = false;
        },
    }
}

/// The days `1..=7` whose flag is set, in order.
fn days_of_flags(seen: &Vec<bool>) -> (days: Vec<u8>)
    requires
        seen@.len() == 8,
    ensures
        canonical_days(days@),
        forall|d: u8| days@.contains(d) <==> 1 <= d < 8 && seen@[d as int],
{
    let mut days: Vec<u8> = Vec::new();
    let mut d: u8 = 1;
    while d <= 7
        invariant
            1 <= d <= 8,
            seen@.len() == 8,
            canonical_days(days@),
            forall|i: int| 0 <= i < days@.len() ==> days@[i] < d,
            forall|e: u8| days@.contains(e) <==> 1 <= e < d && seen@[e as int],
        decreases 8 - d,
    {
        if seen[d as usize] {
            let ghost before = days@;
            days.push(d);
            assert forall|e: u8| days@.contains(e) <==> 1 <= e < d + 1 && seen@[e as int] by {
                if days@.contains(e) {
                    let i = choose|i: int| 0 <= i < days@.len() && days@[i] == e;
                    if i < before.len() {
                        assert(before.contains(e));
                    }
                }
                if 1 <= e < d && seen@[e as int] {
                    assert(before.contains(e));
                    let i = choose|i: int| 0 <= i < before.len() && before[i] == e;
                    assert(days@[i] == e);
                }
                if e == d {
                    assert(days@[days@.len() - 1] == e);
                }
            }
        }
        d += 1;
    }
    days
}

/// Reads a pattern that has been trimmed and put in lowercase; `raw` is the
/// pattern as it was written, for the error message.
pub fn parse_lowered_pattern(pattern: &str, raw: &str) -> (r: Result<Schedule, CliError>)
    ensures
        reads_pattern(pattern@, raw@, r),
{
    let p = to_chars(pattern);
    if p.len() == 0 {
        return Err(CliError::usage("Invalid schedule pattern"));
    }
    let mut seen: Vec<bool> = Vec::new();
    let mut k: usize = 0;
    while k < 8
        invariant
            k <= 8,
            seen@.len() == k,
            forall|i: int| 0 <= i < k ==> !seen@[i],
        decreases 8 - k,
    {
        seen.push(false);
        k += 1;
    }
    let ghost set: Set<u8>;
    let ghost preset: Option<u8> = None;
    if str_eq(pattern, "everyday") {
        let mut d: usize = 1;
        while d <= 7
            invariant
                1 <= d <= 8,
                seen@.len() == 8,
                forall|i: int| 0 <= i < 8 ==> seen@[i] == (1 <= i < d),
            decreases 8 - d,
        {
            seen.set(d, true);
            d += 1;
        }
        proof {
            set = day_span(1, 7);
            preset = Some(1u8);
            assert forall|d: u8| set.contains(d) <==> d < 8 && seen@[d as int] by {}
        }
    } else if str_eq(pattern, "weekdays") {
        let mut d: usize = 1;
        while d <= 5
            invariant
                1 <= d <= 6,
                seen@.len() == 8,
                forall|i: int| 0 <= i < 8 ==> seen@[i] == (1 <= i < d),
            decreases 6 - d,
        {
            seen.set(d, true);
            d += 1;
        }
        proof {
            set = day_span(1, 5);
            preset = Some(1u8);
            assert forall|d: u8| set.contains(d) <==> d < 8 && seen@[d as int] by {}
        }
    } else if str_eq(pattern, "weekends") {
        seen.set(6, true);
        seen.set(7, true);
        proof {
            set = day_span(6, 7);
            preset = Some(6u8);
            assert forall|d: u8| set.contains(d) <==> d < 8 && seen@[d as int] by {}
        }
    } else {
        let mut ok = true;
        let mut cur: Vec<char> = Vec::new();
        let mut i: usize = 0;
        let ghost mut done: Seq<Seq<char>> = Seq::empty();
        assert(p@.take(0) =~= Seq::empty());
        while i < p.len()
            invariant
                i <= p@.len(),
                split_state(p@.take(i as int)) == (done, cur@),
                marks(seen@, ok, named_days(done)),
            decreases p@.len() - i,
        {
            proof {
                assert(p@.take(i + 1).drop_last() =~= p@.take(i as int));
            }
            if p[i] == ',' {
                take_part(&cur, &mut seen, &mut ok, Ghost(named_days(done)));
                proof {
                    assert(done.push(cur@).drop_last() =~= done);
                    done = done.push(cur@);
                }
                cur = Vec::new();
            } else {
                cur.push(p[i]);
            }
            i += 1;
        }
        assert(p@.take(p@.len() as int) =~= p@);
        take_part(&cur, &mut seen, &mut ok, Ghost(named_days(done)));
        proof {
            assert(done.push(cur@).drop_last() =~= done);
            assert(split_commas(p@) == done.push(cur@));
        }
        if !ok {
            return Err(bad_pattern(raw));
        }
        proof {
            set = named_days(split_commas(p@))->0;
            assert forall|d: u8| set.contains(d) <==> d < 8 && seen@[d as int] by {}
        }
    }
    assert(!seen@[0]);
    assert(preset is Some ==> set.contains(preset->0));
    assert(pattern_days(p@) == if preset is Some || exists|d: u8| set.contains(d) {
        Some(set)
    } else {
        None
    });
    let days = days_of_flags(&seen);
    assert forall|d: u8| days@.contains(d) <==> set.contains(d) by {
        assert(set.contains(d) <==> d < 8 && seen@[d as int]);
    }
    if days.len() == 0 {
        proof {
            if exists|d: u8| set.contains(d) {
                let d = choose|d: u8| set.contains(d);
                assert(days@.contains(d));
            }
            if preset is Some {
                assert(days@.contains(preset->0));
            }
        }
        return Err(bad_pattern(raw));
    }
    proof {
        assert(days@.contains(days@[0]));
        assert(set.contains(days@[0]));
    }
    Ok(Schedule { kind: "days_of_week".to_owned(), days })
}

/// The usage error for a pattern that names no schedule.
fn bad_pattern(raw: &str) -> (e: CliError)
    ensures
        e.is_usage("Invalid schedule pattern: "@ + raw@),
{
    let mut message = "Invalid schedule pattern: ".to_owned();
    message.append(raw);
    CliError { message, exit_code: crate::error::EXIT_USAGE }
}

/// Reads a schedule pattern: `everyday`, `weekdays`, `weekends`, or a list
/// of three-letter day names separated by commas, in any case and order.
pub fn parse_schedule_pattern(pattern_raw: &str) -> (r: Result<Schedule, CliError>)
    ensures
        reads_pattern(lowercase_of(trimmed(pattern_raw@)), pattern_raw@, r),
{
    let stripped = trim(pattern_raw);
    let pattern = stripped.as_str().to_lowercase();
    parse_lowered_pattern(pattern.as_str(), pattern_raw)
}


/// The names of the days of `days` that are ISO weekdays, in order.
pub open spec fn day_names(days: Seq<u8>) -> Seq<Seq<char>>
    decreases days.len(),
{
    if days.len() == 0 {
        Seq::empty()
    } else {
        let head = day_names(days.drop_last());
        match day_name(days.last()) {
            Some(name) => head.push(name),
            None => head,
        }
    }
}

/// The pattern that stands for `days`: a preset where the days, put in
/// order, are those of a preset, else the list of their names.
pub open spec fn schedule_text(days: Seq<u8>) -> Seq<char> {
    let sorted = stable_sort::<u8, Ascending>(days);
    if sorted == seq![1u8, 2u8, 3u8, 4u8, 5u8, 6u8, 7u8] {
        "everyday"@
    } else if sorted == seq![1u8, 2u8, 3u8, 4u8, 5u8] {
        "weekdays"@
    } else if sorted == seq![6u8, 7u8] {
        "weekends"@
    } else {
        joined(day_names(sorted), ","@)
    }
}

/// Whether `v` counts up from 1 to `n`.
fn counts_to(v: &Vec<u8>, n: usize) -> (r: bool)
    requires
        n <= 100,
    ensures
        r == (v@.len() == n && forall|i: int| 0 <= i < n ==> v@[i] == i + 1),
{
    if v.len() != n {
        return false;
    }
    let mut i: usize = 0;
    while i < n
        invariant
            i <= n <= 100,
            v@.len() == n,
            forall|k: int| 0 <= k < i ==> v@[k] == k + 1,
        decreases n - i,
    {
        if v[i] as usize != i + 1 {
            return false;
        }
        i += 1;
    }
    true
}

/// The pattern that stands for a schedule.
pub fn schedule_to_string(schedule: &Schedule) -> (s: String)
    ensures
        s@ == schedule_text(schedule@.days),
{
    let sorted = sort_vec::<u8, Ascending>(schedule.days.clone());
    assert(views_of(sorted@) =~= sorted@);
    assert(views_of(schedule.days@) =~= schedule.days@);
    let ghost everyday = seq![1u8, 2u8, 3u8, 4u8, 5u8, 6u8, 7u8];
    let ghost weekdays = seq![1u8, 2u8, 3u8, 4u8, 5u8];
    let ghost weekends = seq![6u8, 7u8];
    if counts_to(&sorted, 7) {
        assert(sorted@ =~= everyday);
        return "everyday".to_owned();
    }
    assert(sorted@ != everyday) by {
        if sorted@ == everyday {
            assert(forall|i: int| 0 <= i < 7 ==> everyday[i] == i + 1);
        }
    }
    if counts_to(&sorted, 5) {
        assert(sorted@ =~= weekdays);
        return "weekdays".to_owned();
    }
    assert(sorted@ != weekdays) by {
        if sorted@ == weekdays {
            assert(forall|i: int| 0 <= i < 5 ==> weekdays[i] == i + 1);
        }
    }
    if sorted.len() == 2 && sorted[0] == 6 && sorted[1] == 7 {
        assert(sorted@ =~= weekends);
        return "weekends".to_owned();
    }
    assert(sorted@ != weekends) by {
        if sorted@ == weekends {
            assert(weekends[0] == 6 && weekends[1] == 7);
        }
    }
    let mut names: Vec<String> = Vec::new();
    let mut i: usize = 0;
    assert(sorted@.take(0) =~= Seq::empty());
    assert(crate::text::texts_of(names@) =~= Seq::empty());
    while i < sorted.len()
        invariant
            i <= sorted@.len(),
            crate::text::texts_of(names@) == day_names(sorted@.take(i as int)),
        decreases sorted@.len() - i,
    {
        proof {
            assert(sorted@.take(i + 1).drop_last() =~= sorted@.take(i as int));
        }
        let ghost before = crate::text::texts_of(names@);
        match iso_to_day_name(sorted[i]) {
            Some(name) => {
                names.push(name.to_owned());
                assert(crate::text::texts_of(names@) =~= before.push(name@));
            },
            None => {},
        }
        i += 1;
    }
    assert(sorted@.take(sorted@.len() as int) =~= sorted@);
    join(&names, ",")
}

/// Whether a schedule is of the one kind there is and lists at least one
/// day, each an ISO weekday.
pub open spec fn schedule_ok(s: ScheduleView) -> bool {
    &&& s.kind == schedule_kind()
    &&& s.days.len() > 0
    &&& forall|i: int| 0 <= i < s.days.len() ==> 1 <= #[trigger] s.days[i] <= 7
}

/// Checks that a schedule is of the one kind there is and lists at least
/// one day, each an ISO weekday.
pub fn validate_schedule(schedule: &Schedule) -> (r: Result<(), CliError>)
    ensures
        r is Ok <==> schedule_ok(schedule@),
        r is Err ==> r->Err_0.is_usage("Invalid schedule"@),
{
    if !str_eq(schedule.kind.as_str(), "days_of_week") {
        return Err(CliError::usage("Invalid schedule"));
    }
    if schedule.days.len() == 0 {
        return Err(CliError::usage("Invalid schedule"));
    }
    let mut i: usize = 0;
    while i < schedule.days.len()
        invariant
            i <= schedule.days@.len(),
            forall|k: int| 0 <= k < i ==> 1 <= #[trigger] schedule.days@[k] <= 7,
        decreases schedule.days@.len() - i,
    {
        let d = schedule.days[i];
        if d < 1 || d > 7 {
            return Err(CliError::usage("Invalid schedule"));
        }
        i += 1;
    }
    Ok(())
}

} // verus!
