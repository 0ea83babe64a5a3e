//! Summaries of what was recorded on each calendar day.
use crate::calendar::{
    calendar_at, calendar_seconds, date_day, date_midnight, date_month, date_year, formatted_date,
    is_date, may_be_local_time, may_be_seconds_at, parsed_date, utf8_text, Tm,
};
use crate::error::Error;
use crate::keys::{
    key_number, keys_of, lemma_key_number_bound, lemma_key_number_injective, number_of_bytes,
};
use crate::recording::{fits, quotient_toward_zero, Duration, Time, TIME_UNITS_PER_SEC};
use crate::text::{ascii_bytes, decimal, decimal_two, digit_char, digits};
use std::collections::BTreeMap;
use std::ops::Range;
use vstd::prelude::*;
use vstd::string::*;

verus! {

broadcast use {
    vstd::std_specs::btree::group_btree_axioms,
    vstd::laws_cmp::group_laws_cmp,
};

/// A calendar day in `YYYY-mm-dd` format.
#[derive(Copy, Clone, Debug, Eq, Ord, PartialEq, PartialOrd)]
pub struct StreamDayKey(pub [u8; 10]);

/// What was recorded on a calendar day.
#[derive(Copy, Clone, Debug, PartialEq, Eq, Structural)]
pub struct StreamDayValue {
    /// The number of recordings that overlap with this day. `adjust_day` prunes days with none.
    pub recordings: i64,
    /// The total duration recorded on this day. This can be 0: frames' durations are taken from
    /// the time of the next frame, so a recording that ends unexpectedly after a single frame has
    /// no duration.
    pub duration: Duration,
}

impl View for StreamDayKey {
    type V = Seq<u8>;

    open spec fn view(&self) -> Seq<u8> {
        self.0@
    }
}

/// `text` followed by as many zero bytes as it takes to fill a day key.
pub open spec fn padded(text: Seq<u8>) -> Seq<u8> {
    text + Seq::new((10 - text.len()) as nat, |i: int| 0u8)
}

impl StreamDayKey {
    /// The day of a calendar time.
    pub fn new(tm: Tm) -> (r: Result<Self, Error>)
        requires
            tm.tm_year <= i32::MAX - 1900,
        ensures
            r is Ok <==> tm.has_date() && tm.date_text().len() <= 10,
            r matches Ok(k) ==> k@ == padded(tm.date_text()),
            !tm.has_date() ==> (r matches Err(Error::InvalidCalendarTime(e)) && e@ == tm.refusal()),
            tm.has_date() && tm.date_text().len() > 10 ==> r == Err::<Self, Error>(
                Error::DayTooLong,
            ),
    {
        let text = match formatted_date(&tm) {
            Ok(text) => text,
            Err(e) => return Err(Error::InvalidCalendarTime(e)),
        };
        if text.len() > 10 {
            return Err(Error::DayTooLong);
        }
        let mut key: [u8; 10] = [0; 10];
        let mut i: usize = 0;
        while i < text.len()
            invariant
                i <= text@.len() <= 10,
                forall|j: int| 0 <= j < i ==> key@[j] == text@[j],
                forall|j: int| i <= j < 10 ==> key@[j] == 0,
            decreases text@.len() - i,
        {
            key[i] = text[i];
            i += 1;
        }
        assert(key@ =~= padded(text@));
        Ok(StreamDayKey(key))
    }

    /// The text of the key.
    pub fn as_ref(&self) -> (r: &str)
        requires
            vstd::utf8::valid_utf8(self@),
        ensures
            r.spec_bytes() == self@,
    {
        match utf8_text(self.0.as_slice()) {
            Some(s) => s,
            None => vstd::pervasive::unreached(),
        }
    }
}

spec fn code(s: Seq<u8>) -> u128 {
    key_number(s) as u128
}

broadcast proof fn lemma_code_injective(a: Seq<u8>, b: Seq<u8>)
    requires
        a.len() == 10,
        b.len() == 10,
        #[trigger] code(a) == #[trigger] code(b),
    ensures
        a == b,
{
    lemma_key_number_bound(a);
    lemma_key_number_bound(b);
    lemma_key_number_injective(a, b);
}

fn number_of(day: &StreamDayKey) -> (r: u128)
    ensures
        r == code(day@),
{
    number_of_bytes(day.0.as_slice())
}

/// A map from calendar days to what was recorded on them, in the order of the days.
#[derive(Debug)]
pub struct DayMap {
    map: BTreeMap<u128, (StreamDayKey, StreamDayValue)>,
}

impl View for DayMap {
    type V = Map<Seq<u8>, StreamDayValue>;

    closed spec fn view(&self) -> Map<Seq<u8>, StreamDayValue> {
        Map::new(
            |k: Seq<u8>| k.len() == 10 && self.map@.contains_key(code(k)),
            |k: Seq<u8>| self.map@[code(k)].1,
        )
    }
}

spec fn keys_match(m: Map<u128, (StreamDayKey, StreamDayValue)>) -> bool {
    forall|c: u128| #[trigger] m.contains_key(c) ==> code(m[c].0@) == c
}

impl DayMap {
    #[verifier::type_invariant]
    spec fn consistent(self) -> bool {
        keys_match(self.map@)
    }

    /// A map with no days.
    pub fn new() -> (r: Self)
        ensures
            r@ == Map::<Seq<u8>, StreamDayValue>::empty(),
    {
        let r = DayMap { map: BTreeMap::new() };
        assert(r@ =~= Map::<Seq<u8>, StreamDayValue>::empty());
        r
    }

    /// What was recorded on `day`, if anything was.
    pub fn get(&self, day: &StreamDayKey) -> (r: Option<StreamDayValue>)
        ensures
            r == if self@.contains_key(day@) {
                Some(self@[day@])
            } else {
                None
            },
    {
        match self.map.get(&number_of(day)) {
            Some(e) => Some(e.1),
            None => None,
        }
    }

    /// Records `value` for `day`.
    pub fn insert(&mut self, day: StreamDayKey, value: StreamDayValue)
        ensures
            final(self)@ == old(self)@.insert(day@, value),
    {
        proof {
            broadcast use lemma_code_injective;

            use_type_invariant(&*self);
        }
        let mut map = BTreeMap::new();
        std::mem::swap(&mut map, &mut self.map);
        let number = number_of(&day);
        map.insert(number, (day, value));
        self.map = map;
        assert(self@ =~= old(self)@.insert(day@, value));
    }

    /// Forgets `day`.
    pub fn remove(&mut self, day: &StreamDayKey)
        ensures
            final(self)@ == old(self)@.remove(day@),
    {
        proof {
            broadcast use lemma_code_injective;

            use_type_invariant(&*self);
        }
        let mut map = BTreeMap::new();
        std::mem::swap(&mut map, &mut self.map);
        map.remove(&number_of(day));
        self.map = map;
        assert(self@ =~= old(self)@.remove(day@));
    }

    /// The number of days.
    pub fn len(&self) -> (r: usize)
        ensures
            r == self@.len(),
            self@.dom().finite(),
    {
        proof {
            broadcast use lemma_code_injective;

            use_type_invariant(&*self);
            lemma_day_count(self.map@, self@);
        }
        self.map.len()
    }

    /// The days and what was recorded on them, in ascending order.
    pub fn entries(&self) -> (r: Vec<(StreamDayKey, StreamDayValue)>)
        ensures
            forall|i: int|
                0 <= i < r@.len() ==> self@.contains_key((#[trigger] r@[i]).0@)
                    && self@[r@[i].0@] == r@[i].1,
            forall|k: Seq<u8>| #[trigger]
                self@.contains_key(k) ==> exists|i: int|
                    0 <= i < r@.len() && (#[trigger] r@[i]).0@ == k,
            forall|i: int, j: int|
                0 <= i < j < r@.len() ==> key_number((#[trigger] r@[i]).0@) < key_number(
                    (#[trigger] r@[j]).0@,
                ),
    {
        proof {
            broadcast use lemma_code_injective;

            use_type_invariant(&*self);
        }
        let codes = keys_of(&self.map);
        let mut r: Vec<(StreamDayKey, StreamDayValue)> = Vec::new();
        let mut i: usize = 0;
        while i < codes.len()
            invariant
                i <= codes@.len(),
                keys_match(self.map@),
                forall|c: u128| #[trigger] codes@.contains(c) <==> self.map@.contains_key(c),
                r@.len() == i,
                forall|j: int| 0 <= j < i ==> #[trigger] r@[j] == self.map@[codes@[j]],
            decreases codes@.len() - i,
        {
            assert(codes@.contains(codes@[i as int]));
            if let Some(e) = self.map.get(&codes[i]) {
                r.push(*e);
            }
            i += 1;
        }
        proof {
            assert forall|j: int| 0 <= j < r@.len() implies self@.contains_key(
                (#[trigger] r@[j]).0@,
            ) && self@[r@[j].0@] == r@[j].1 by {
                assert(codes@.contains(codes@[j]));
            }
            assert forall|k: Seq<u8>| #[trigger] self@.contains_key(k) implies exists|j: int|
                0 <= j < r@.len() && (#[trigger] r@[j]).0@ == k by {
                assert(codes@.contains(code(k)));
                let j = choose|j: int| 0 <= j < codes@.len() && codes@[j] == code(k);
                assert(r@[j].0@ == k);
            }
            assert forall|i: int, j: int| 0 <= i < j < r@.len() implies key_number(
                (#[trigger] r@[i]).0@,
            ) < key_number((#[trigger] r@[j]).0@) by {
                assert(codes@.contains(codes@[i]));
                assert(codes@.contains(codes@[j]));
                lemma_code_is_number(r@[i].0@);
                lemma_code_is_number(r@[j].0@);
                lemma_increasing(codes@, i, j);
            }
        }
        r
    }
}

proof fn lemma_code_is_number(k: Seq<u8>)
    requires
        k.len() == 10,
    ensures
        code(k) == key_number(k),
{
    lemma_key_number_bound(k);
}

proof fn lemma_increasing(s: Seq<u128>, i: int, j: int)
    requires
        vstd::std_specs::btree::increasing_seq(s),
        0 <= i < j < s.len(),
    ensures
        s[i] < s[j],
{
    assert(vstd::std_specs::cmp::OrdSpec::cmp_spec(&s[i], &s[j]) is Less);
}

proof fn lemma_day_count(
    m: Map<u128, (StreamDayKey, StreamDayValue)>,
    days: Map<Seq<u8>, StreamDayValue>,
)
    requires
        keys_match(m),
        m.dom().finite(),
        forall|k: Seq<u8>| #[trigger]
            days.contains_key(k) <==> k.len() == 10 && m.contains_key(code(k)),
    ensures
        days.dom().finite(),
        days.len() == m.len(),
{
    broadcast use lemma_code_injective;

    let f = |c: u128| m[c].0@;
    assert(m.dom().map(f) =~= days.dom()) by {
        assert forall|k: Seq<u8>| #[trigger] days.dom().contains(k) implies m.dom().map(
            f,
        ).contains(k) by {
            assert(m.dom().contains(code(k)) && f(code(k)) == k);
        }
    }
    m.dom().lemma_map_finite(f);
    vstd::set_lib::lemma_map_size(m.dom(), days.dom(), f);
}

impl Clone for DayMap {
    fn clone(&self) -> (r: Self)
        ensures
            r@ == self@,
    {
        proof {
            broadcast use lemma_code_injective;

            use_type_invariant(&*self);
        }
        let r = DayMap { map: self.map.clone() };
        assert(r@ =~= self@);
        r
    }
}

/// Whether the sums of `delta` and what `m` has for `day` can be held.
pub open spec fn day_fits(
    m: Map<Seq<u8>, StreamDayValue>,
    day: Seq<u8>,
    delta: StreamDayValue,
) -> bool {
    m.contains_key(day) ==> fits(m[day].recordings + delta.recordings) && fits(
        m[day].duration.0 + delta.duration.0,
    )
}

/// `m` after `delta` was added to `day`. A day that was absent starts out as `delta`; a day that
/// is left with no recordings is absent.
pub open spec fn day_adjusted(
    m: Map<Seq<u8>, StreamDayValue>,
    day: Seq<u8>,
    delta: StreamDayValue,
) -> Map<Seq<u8>, StreamDayValue> {
    if !m.contains_key(day) {
        m.insert(day, delta)
    } else if m[day].recordings + delta.recordings == 0 {
        m.remove(day)
    } else {
        m.insert(
            day,
            StreamDayValue {
                recordings: (m[day].recordings + delta.recordings) as i64,
                duration: Duration((m[day].duration.0 + delta.duration.0) as i64),
            },
        )
    }
}

/// Adds `delta` to the day `day` in the map `m`. Inserts an entry if there is none; removes the
/// entry if it has no recordings on exit.
pub fn adjust_day(day: StreamDayKey, delta: StreamDayValue, m: &mut DayMap)
    requires
        day_fits(old(m)@, day@, delta),
    ensures
        final(m)@ == day_adjusted(old(m)@, day@, delta),
{
    match m.get(&day) {
        None => m.insert(day, delta),
        Some(v) => {
            let recordings: i64 = v.recordings + delta.recordings;
            let duration = Duration(v.duration.0 + delta.duration.0);
            if recordings == 0 {
                m.remove(&day);
            } else {
                m.insert(day, StreamDayValue { recordings, duration });
            }
        },
    }
}

/// Whether the sums of `delta` and what `m` has for `day` can be held.
pub fn can_adjust_day(day: &StreamDayKey, delta: StreamDayValue, m: &DayMap) -> (r: bool)
    ensures
        r == day_fits(m@, day@, delta),
{
    match m.get(day) {
        None => true,
        Some(v) => v.recordings.checked_add(delta.recordings).is_some()
            && v.duration.0.checked_add(delta.duration.0).is_some(),
    }
}

/// What `m` has for `day`, if anything.
pub open spec fn day_value(m: Map<Seq<u8>, StreamDayValue>, day: Seq<u8>) -> Option<
    StreamDayValue,
> {
    if m.contains_key(day) {
        Some(m[day])
    } else {
        None
    }
}

/// What is left for `day` after everything in `b` was added to `a`. A day that has no recordings
/// then is absent.
pub open spec fn merged_value(
    a: Map<Seq<u8>, StreamDayValue>,
    b: Map<Seq<u8>, StreamDayValue>,
    day: Seq<u8>,
) -> Option<StreamDayValue> {
    if b.contains_key(day) && (a.contains_key(day) || b[day].recordings != 0) {
        day_value(day_adjusted(a, day, b[day]), day)
    } else {
        day_value(a, day)
    }
}

/// `a` after everything in `b` was added, day by day.
pub open spec fn days_merged(
    a: Map<Seq<u8>, StreamDayValue>,
    b: Map<Seq<u8>, StreamDayValue>,
) -> Map<Seq<u8>, StreamDayValue> {
    Map::new(|k: Seq<u8>| merged_value(a, b, k) is Some, |k: Seq<u8>| merged_value(a, b, k)->0)
}

/// Whether the sums of `days_merged` can be held.
pub open spec fn merge_fits(
    a: Map<Seq<u8>, StreamDayValue>,
    b: Map<Seq<u8>, StreamDayValue>,
) -> bool {
    forall|k: Seq<u8>| #[trigger] b.contains_key(k) ==> day_fits(a, k, b[k])
}

/// Adds everything in `delta` to `m`, day by day.
pub fn merge_days(m: &mut DayMap, delta: &DayMap)
    requires
        merge_fits(old(m)@, delta@),
    ensures
        final(m)@ == days_merged(old(m)@, delta@),
{
    let ghost a = m@;
    let entries = delta.entries();
    let ghost keys = entries@.map_values(|e: (StreamDayKey, StreamDayValue)| e.0@);
    let mut i: usize = 0;
    while i < entries.len()
        invariant
            i <= entries@.len(),
            keys.len() == entries@.len(),
            forall|j: int| 0 <= j < entries@.len() ==> keys[j] == (#[trigger] entries@[j]).0@,
            forall|j: int|
                0 <= j < entries@.len() ==> delta@.contains_key((#[trigger] entries@[j]).0@)
                    && delta@[entries@[j].0@] == entries@[j].1,
            forall|i: int, j: int|
                0 <= i < j < entries@.len() ==> key_number((#[trigger] entries@[i]).0@)
                    < key_number((#[trigger] entries@[j]).0@),
            merge_fits(a, delta@),
            forall|k: Seq<u8>|
                #![trigger m@.contains_key(k)]
                day_value(m@, k) == if keys.take(i as int).contains(k) {
                    merged_value(a, delta@, k)
                } else {
                    day_value(a, k)
                },
        decreases entries@.len() - i,
    {
        let ghost before = m@;
        let (day, value) = entries[i];
        proof {
            let done = keys.take(i as int);
            if done.contains(day@) {
                let j = choose|j: int| 0 <= j < done.len() && done[j] == day@;
                assert(entries@[j].0@ == day@);
                assert(key_number(entries@[j].0@) < key_number(entries@[i as int].0@));
            }
            assert(day_value(before, day@) == day_value(a, day@)) by {
                assert(before.contains_key(day@) || !before.contains_key(day@));
            }
            assert(delta@.contains_key(day@));
        }
        if m.get(&day).is_some() || value.recordings != 0 {
            adjust_day(day, value, m);
        }
        proof {
            let done = keys.take(i as int);
            let next = keys.take(i + 1);
            assert(next =~= done.push(day@));
            assert forall|k: Seq<u8>| #![trigger m@.contains_key(k)] day_value(m@, k)
                == if next.contains(k) {
                merged_value(a, delta@, k)
            } else {
                day_value(a, k)
            } by {
                assert(before.contains_key(k) || !before.contains_key(k));
                if k == day@ {
                    assert(next[i as int] == k);
                } else {
                    if done.contains(k) {
                        let j = choose|j: int| 0 <= j < done.len() && done[j] == k;
                        assert(next[j] == k);
                    }
                    if next.contains(k) {
                        let j = choose|j: int| 0 <= j < next.len() && next[j] == k;
                        assert(done[j] == k);
                    }
                }
            }
        }
        i += 1;
    }
    proof {
        assert(keys.take(i as int) =~= keys);
        assert forall|k: Seq<u8>| day_value(m@, k) == #[trigger] merged_value(a, delta@, k) by {
            assert(m@.contains_key(k) || !m@.contains_key(k));
            if delta@.contains_key(k) {
                let j = choose|j: int| 0 <= j < entries@.len() && (#[trigger] entries@[j]).0@ == k;
                assert(keys[j] == k);
            } else if keys.contains(k) {
                let j = choose|j: int| 0 <= j < keys.len() && keys[j] == k;
                assert(delta@.contains_key(entries@[j].0@));
            }
        }
        assert(m@ =~= days_merged(a, delta@)) by {
            assert forall|k: Seq<u8>| m@.contains_key(k) <==> #[trigger] days_merged(
                a,
                delta@,
            ).contains_key(k) by {
                assert(day_value(m@, k) == merged_value(a, delta@, k));
            }
            assert forall|k: Seq<u8>| #[trigger] m@.contains_key(k) implies m@[k] == days_merged(
                a,
                delta@,
            )[k] by {
                assert(day_value(m@, k) == merged_value(a, delta@, k));
            }
        }
    }
}

/// Whether `merge_days` can hold all sums.
pub fn can_merge_days(m: &DayMap, delta: &DayMap) -> (r: bool)
    ensures
        r == merge_fits(m@, delta@),
{
    let entries = delta.entries();
    let mut i: usize = 0;
    while i < entries.len()
        invariant
            i <= entries@.len(),
            forall|j: int|
                0 <= j < entries@.len() ==> delta@.contains_key((#[trigger] entries@[j]).0@)
                    && delta@[entries@[j].0@] == entries@[j].1,
            forall|j: int|
                0 <= j < i ==> day_fits(m@, (#[trigger] entries@[j]).0@, entries@[j].1),
        decreases entries@.len() - i,
    {
        let (day, value) = entries[i];
        if !can_adjust_day(&day, value, m) {
            assert(delta@.contains_key(entries@[i as int].0@));
            return false;
        }
        i += 1;
    }
    assert forall|k: Seq<u8>| #[trigger] delta@.contains_key(k) implies day_fits(
        m@,
        k,
        delta@[k],
    ) by {
        let j = choose|j: int| 0 <= j < entries@.len() && (#[trigger] entries@[j]).0@ == k;
        assert(day_fits(m@, entries@[j].0@, entries@[j].1));
    }
    true
}

/// `m` after `delta` was added to `day`, where `m` has changes of days and not what was recorded on
/// them. A day that was absent starts out as `delta`; a day is absent if nothing about it changes,
/// be it the number of recordings or the duration.
pub open spec fn change_adjusted(
    m: Map<Seq<u8>, StreamDayValue>,
    day: Seq<u8>,
    delta: StreamDayValue,
) -> Map<Seq<u8>, StreamDayValue> {
    if !m.contains_key(day) {
        m.insert(day, delta)
    } else if m[day].recordings + delta.recordings == 0 && m[day].duration.0 + delta.duration.0
        == 0 {
        m.remove(day)
    } else {
        m.insert(
            day,
            StreamDayValue {
                recordings: (m[day].recordings + delta.recordings) as i64,
                duration: Duration((m[day].duration.0 + delta.duration.0) as i64),
            },
        )
    }
}

/// Adds `delta` to the change of the day `day` in the map `m`. Inserts an entry if there is none;
/// removes the entry if it changes nothing on exit.
pub fn adjust_change(day: StreamDayKey, delta: StreamDayValue, m: &mut DayMap)
    requires
        day_fits(old(m)@, day@, delta),
    ensures
        final(m)@ == change_adjusted(old(m)@, day@, delta),
{
    match m.get(&day) {
        None => m.insert(day, delta),
        Some(v) => {
            let recordings: i64 = v.recordings + delta.recordings;
            let duration = Duration(v.duration.0 + delta.duration.0);
            if recordings == 0 && duration.0 == 0 {
                m.remove(&day);
            } else {
                m.insert(day, StreamDayValue { recordings, duration });
            }
        },
    }
}

/// Where the calendar splits a recording: the day that it starts on, when the next day starts, and
/// the day that starts then. A day is missing if it can't be written as a key.
#[derive(Copy, Clone, Debug)]
pub struct DaySplit {
    pub first: Option<StreamDayKey>,
    pub boundary: Time,
    pub second: Option<StreamDayKey>,
}

/// Whether `key` is the key of the day of some calendar time whose fields are in their ranges.
pub open spec fn is_day_key(key: StreamDayKey) -> bool {
    exists|tm: Tm| #[trigger] is_key_of(key, tm)
}

/// Whether `key` is the key of the day of `tm`.
pub open spec fn is_key_of(key: StreamDayKey, tm: Tm) -> bool {
    tm.has_date() && 1 <= tm.tm_mday <= 31 && tm.date_text().len() <= 10 && key@ == padded(
        tm.date_text(),
    )
}

impl DaySplit {
    /// What any calendar gives: the days are days, and the boundary is a whole second.
    pub open spec fn valid(self) -> bool {
        &&& self.first matches Some(k) ==> is_day_key(k)
        &&& self.second matches Some(k) ==> is_day_key(k)
        &&& self.boundary.0 % TIME_UNITS_PER_SEC == 0
    }

    /// Time within `r` before the boundary.
    pub open spec fn before(self, r: Range<Time>) -> int {
        if r.end.0 < self.boundary.0 {
            r.end.0 - r.start.0
        } else {
            self.boundary.0 - r.start.0
        }
    }

    /// Time within `r` after the boundary, where it extends that far.
    pub open spec fn after(self, r: Range<Time>) -> int {
        r.end.0 - self.boundary.0
    }

    /// Whether `r` has a part after the boundary.
    pub open spec fn spans(self, r: Range<Time>) -> bool {
        r.end.0 > self.boundary.0
    }
}

/// What `sign` recordings with `sign` times `duration` add to a day.
pub open spec fn day_delta(sign: int, duration: int) -> StreamDayValue {
    StreamDayValue { recordings: sign as i64, duration: Duration((sign * duration) as i64) }
}

/// `m` after `sign` recordings of the range `r` were added to the days that `split` gives.
pub open spec fn days_adjusted(
    m: Map<Seq<u8>, StreamDayValue>,
    r: Range<Time>,
    sign: int,
    split: DaySplit,
) -> Map<Seq<u8>, StreamDayValue> {
    match split.first {
        None => m,
        Some(first) => {
            let m1 = day_adjusted(m, first@, day_delta(sign, split.before(r)));
            if split.spans(r) && split.second is Some {
                day_adjusted(m1, split.second->0@, day_delta(sign, split.after(r)))
            } else {
                m1
            }
        },
    }
}

/// Whether everything that `days_adjusted` computes can be held.
pub open spec fn days_fit(
    m: Map<Seq<u8>, StreamDayValue>,
    r: Range<Time>,
    sign: int,
    split: DaySplit,
) -> bool {
    split.first matches Some(first) ==> {
        let delta = day_delta(sign, split.before(r));
        &&& fits(split.before(r)) && fits(sign * split.before(r))
        &&& day_fits(m, first@, delta)
        &&& split.spans(r) && split.second is Some ==> {
            &&& fits(split.after(r)) && fits(sign * split.after(r))
            &&& day_fits(
                day_adjusted(m, first@, delta),
                split.second->0@,
                day_delta(sign, split.after(r)),
            )
        }
    }
}

/// Adjusts the day map `m` to reflect `sign` recordings of the range `r`, given the days that the
/// range is split into.
///
/// The range may span two days. It never spans more, because the maximum length of a recording is
/// less than a day (even a 23-hour "spring forward" day).
pub fn adjust_days_at(r: Range<Time>, sign: i64, split: DaySplit, m: &mut DayMap)
    requires
        days_fit(old(m)@, r, sign as int, split),
    ensures
        final(m)@ == days_adjusted(old(m)@, r, sign as int, split),
{
    let first = match split.first {
        None => return ,
        Some(first) => first,
    };
    let end: i64 = if r.end.0 < split.boundary.0 {
        r.end.0
    } else {
        split.boundary.0
    };
    let duration: i64 = end - r.start.0;
    let delta = StreamDayValue { recordings: sign, duration: Duration(sign * duration) };
    adjust_day(first, delta, m);
    if r.end.0 <= split.boundary.0 {
        return ;
    }
    let second = match split.second {
        None => return ,
        Some(second) => second,
    };
    let duration: i64 = r.end.0 - split.boundary.0;
    let delta = StreamDayValue { recordings: sign, duration: Duration(sign * duration) };
    adjust_day(second, delta, m);
}

/// What a day with the value `existing` has after `delta` was added.
fn adjusted_value(existing: Option<StreamDayValue>, delta: StreamDayValue) -> (r: Option<
    StreamDayValue,
>)
    requires
        existing matches Some(v) ==> fits(v.recordings + delta.recordings) && fits(
            v.duration.0 + delta.duration.0,
        ),
    ensures
        r == match existing {
            None => Some(delta),
            Some(v) => if v.recordings + delta.recordings == 0 {
                None
            } else {
                Some(
                    StreamDayValue {
                        recordings: (v.recordings + delta.recordings) as i64,
                        duration: Duration((v.duration.0 + delta.duration.0) as i64),
                    },
                )
            },
        },
{
    match existing {
        None => Some(delta),
        Some(v) => {
            let recordings: i64 = v.recordings + delta.recordings;
            if recordings == 0 {
                None
            } else {
                Some(
                    StreamDayValue {
                        recordings,
                        duration: Duration(v.duration.0 + delta.duration.0),
                    },
                )
            }
        },
    }
}

/// Whether `adjust_days_at` can hold everything that it computes.
pub fn can_adjust_days_at(r: &Range<Time>, sign: i64, split: &DaySplit, m: &DayMap) -> (fit: bool)
    ensures
        fit == days_fit(m@, *r, sign as int, *split),
{
    let first = match split.first {
        None => return true,
        Some(first) => first,
    };
    let end: i64 = if r.end.0 < split.boundary.0 {
        r.end.0
    } else {
        split.boundary.0
    };
    let before: i64 = match end.checked_sub(r.start.0) {
        None => return false,
        Some(before) => before,
    };
    let product: i64 = match sign.checked_mul(before) {
        None => return false,
        Some(product) => product,
    };
    let delta = StreamDayValue { recordings: sign, duration: Duration(product) };
    if !can_adjust_day(&first, delta, m) {
        return false;
    }
    if r.end.0 <= split.boundary.0 {
        return true;
    }
    let second = match split.second {
        None => return true,
        Some(second) => second,
    };
    let after: i64 = match r.end.0.checked_sub(split.boundary.0) {
        None => return false,
        Some(after) => after,
    };
    let product2: i64 = match sign.checked_mul(after) {
        None => return false,
        Some(product2) => product2,
    };
    proof {
        broadcast use lemma_code_injective;

    }
    let existing = if number_of(&first) == number_of(&second) {
        adjusted_value(m.get(&first), delta)
    } else {
        m.get(&second)
    };
    match existing {
        None => true,
        Some(v) => v.recordings.checked_add(sign).is_some() && v.duration.0.checked_add(
            product2,
        ).is_some(),
    }
}

proof fn lemma_ascii_is_utf8(s: Seq<u8>)
    requires
        forall|i: int| 0 <= i < s.len() ==> #[trigger] s[i] <= 127,
    ensures
        vstd::utf8::valid_utf8(s),
{
    assert forall|i: int| 0 <= i < s.len() implies #[trigger] vstd::utf8::is_leading_byte_width_1(
        s[i],
    ) by {
        assert(s[i] <= 127);
    }
    assert(s.subrange(0, 0) =~= Seq::<u8>::empty());
    assert(vstd::utf8::partial_valid_utf8(s, 0));
    vstd::utf8::partial_valid_utf8_extend_ascii_block(s, 0, s.len() as int);
    assert(s.subrange(0, s.len() as int) =~= s);
}

/// Whether `key` is the key of the day of `tm`, if that can be written as one.
pub open spec fn is_key_if_any(key: Option<StreamDayKey>, tm: Tm) -> bool {
    &&& key is Some <==> tm.has_date() && tm.date_text().len() <= 10
    &&& key matches Some(k) ==> k@ == padded(tm.date_text())
}

fn key_if_any(tm: Tm) -> (r: Option<StreamDayKey>)
    requires
        tm.tm_year <= i32::MAX - 1900,
    ensures
        is_key_if_any(r, tm),
{
    match StreamDayKey::new(tm) {
        Ok(key) => Some(key),
        Err(_) => None,
    }
}

/// The time `sec` seconds after the epoch, if it can be held.
pub open spec fn held_time(sec: i64) -> Option<Time> {
    if fits(sec * TIME_UNITS_PER_SEC) {
        Some(Time((sec * TIME_UNITS_PER_SEC) as i64))
    } else {
        None
    }
}

/// The time `sec` seconds after the epoch, if it can be held.
pub fn time_at_second(sec: i64) -> (r: Option<Time>)
    ensures
        r == held_time(sec),
{
    match sec.checked_mul(TIME_UNITS_PER_SEC) {
        Some(units) => Some(Time(units)),
        None => None,
    }
}

/// The split of a range that starts at the calendar time `tm`, if the next day starts
/// `boundary_sec` seconds after the epoch, at the calendar time `next`.
pub fn split_at(tm: Tm, boundary_sec: i64, next: Tm) -> (r: DaySplit)
    requires
        fits(boundary_sec * TIME_UNITS_PER_SEC),
        tm.tm_year <= i32::MAX - 1900,
        next.tm_year <= i32::MAX - 1900,
    ensures
        is_key_if_any(r.first, tm),
        r.boundary.0 == boundary_sec * TIME_UNITS_PER_SEC,
        is_key_if_any(r.second, next),
{
    DaySplit {
        first: key_if_any(tm),
        boundary: Time(boundary_sec * TIME_UNITS_PER_SEC),
        second: key_if_any(next),
    }
}

/// `m` after `sign` recordings of the range `r` were added to the changes of the days that `split`
/// gives.
pub open spec fn changes_adjusted(
    m: Map<Seq<u8>, StreamDayValue>,
    r: Range<Time>,
    sign: int,
    split: DaySplit,
) -> Map<Seq<u8>, StreamDayValue> {
    match split.first {
        None => m,
        Some(first) => {
            let m1 = change_adjusted(m, first@, day_delta(sign, split.before(r)));
            if split.spans(r) && split.second is Some {
                change_adjusted(m1, split.second->0@, day_delta(sign, split.after(r)))
            } else {
                m1
            }
        },
    }
}

/// Whether everything that `changes_adjusted` computes can be held.
pub open spec fn changes_fit(
    m: Map<Seq<u8>, StreamDayValue>,
    r: Range<Time>,
    sign: int,
    split: DaySplit,
) -> bool {
    split.first matches Some(first) ==> {
        let delta = day_delta(sign, split.before(r));
        &&& fits(split.before(r)) && fits(sign * split.before(r))
        &&& day_fits(m, first@, delta)
        &&& split.spans(r) && split.second is Some ==> {
            &&& fits(split.after(r)) && fits(sign * split.after(r))
            &&& day_fits(
                change_adjusted(m, first@, delta),
                split.second->0@,
                day_delta(sign, split.after(r)),
            )
        }
    }
}

/// `m` after `sign` recordings of the range `r` were added to the changes of days, if the calendar
/// gives `split`. Days that can't be known or sums that can't be held leave `m` as it is.
pub open spec fn changes_adjusted_if_fit(
    m: Map<Seq<u8>, StreamDayValue>,
    r: Range<Time>,
    sign: int,
    split: Option<DaySplit>,
) -> Map<Seq<u8>, StreamDayValue> {
    if split is Some && changes_fit(m, r, sign, split->0) {
        changes_adjusted(m, r, sign, split->0)
    } else {
        m
    }
}

/// What `sign` recordings with `sign` times `duration` add to a day, if that can be held.
fn held_delta(sign: i64, duration: Option<i64>) -> (r: Option<StreamDayValue>)
    ensures
        r == match duration {
            Some(d) => if fits(sign * d) {
                Some(day_delta(sign as int, d as int))
            } else {
                None
            },
            None => None,
        },
{
    match duration {
        None => None,
        Some(d) => match sign.checked_mul(d) {
            None => None,
            Some(product) => Some(
                StreamDayValue { recordings: sign, duration: Duration(product) },
            ),
        },
    }
}

/// Adjusts the changes of days in `m` to reflect `sign` recordings of the range `r`, if the days
/// that the range is split into are known and all sums can be held.
pub fn adjust_changes_if_fit(r: Range<Time>, sign: i64, split: Option<DaySplit>, m: &mut DayMap)
    ensures
        final(m)@ == changes_adjusted_if_fit(old(m)@, r, sign as int, split),
{
    let split = match split {
        None => return ,
        Some(split) => split,
    };
    let first = match split.first {
        None => return ,
        Some(first) => first,
    };
    let end: i64 = if r.end.0 < split.boundary.0 {
        r.end.0
    } else {
        split.boundary.0
    };
    let delta = match held_delta(sign, end.checked_sub(r.start.0)) {
        None => return ,
        Some(delta) => delta,
    };
    if !can_adjust_day(&first, delta, m) {
        return ;
    }
    let second = match split.second {
        Some(second) if r.end.0 > split.boundary.0 => second,
        _ => {
            adjust_change(first, delta, m);
            return ;
        },
    };
    let delta2 = match held_delta(sign, r.end.0.checked_sub(split.boundary.0)) {
        None => return ,
        Some(delta2) => delta2,
    };
    let ghost before = m@;
    let existing = m.get(&first);
    adjust_change(first, delta, m);
    if can_adjust_day(&second, delta2, m) {
        adjust_change(second, delta2, m);
    } else {
        match existing {
            None => m.remove(&first),
            Some(v) => m.insert(first, v),
        }
        assert(m@ =~= before);
    }
}

/// Asks the calendar where the range `r` is split: what the local calendar time is at the start,
/// when the day after that starts, and what the calendar time is then. There is no answer if the
/// next day starts at a time that can't be held.
pub fn day_split(r: &Range<Time>) -> (split: Option<DaySplit>)
    ensures
        possible_split(*r, split),
{
    let tm = calendar_at(r.start.unix_seconds());
    let boundary_sec: i64 = calendar_seconds(&tm.next_midnight());
    if time_at_second(boundary_sec).is_none() {
        assert(is_split_by(*r, tm, boundary_sec, None));
        return None;
    }
    let next = calendar_at(boundary_sec);
    let split = split_at(tm, boundary_sec, next);
    proof {
        if split.first is Some {
            assert(is_key_of(split.first->0, tm));
        }
        if split.second is Some {
            assert(is_key_of(split.second->0, next));
        }
        assert(is_split_by(*r, tm, boundary_sec, Some(split)));
    }
    Some(split)
}

/// `m` after `sign` recordings of the range `r` were added, if the calendar gives `split`. Days
/// that can't be known or sums that can't be held leave `m` as it is.
pub open spec fn days_adjusted_if_fit(
    m: Map<Seq<u8>, StreamDayValue>,
    r: Range<Time>,
    sign: int,
    split: Option<DaySplit>,
) -> Map<Seq<u8>, StreamDayValue> {
    if split is Some && days_fit(m, r, sign, split->0) {
        days_adjusted(m, r, sign, split->0)
    } else {
        m
    }
}

/// Whether `after` is `before` with `sign` recordings of the range `r` added to the days that some
/// calendar splits the range into.
pub open spec fn days_adjusted_somehow(
    before: Map<Seq<u8>, StreamDayValue>,
    r: Range<Time>,
    sign: int,
    after: Map<Seq<u8>, StreamDayValue>,
) -> bool {
    exists|split: Option<DaySplit>|
        possible_split(r, split) && after == #[trigger] days_adjusted_if_fit(
            before,
            r,
            sign,
            split,
        )
}

/// Whether `split` is where the calendar may split the range `r`.
pub open spec fn possible_split(r: Range<Time>, split: Option<DaySplit>) -> bool {
    exists|tm: Tm, boundary_sec: i64| #[trigger] is_split_by(r, tm, boundary_sec, split)
}

/// Whether `split` is where the range `r` is split by a calendar that says that it starts at the
/// local time `tm`, and that the day after that starts `boundary_sec` seconds after the epoch.
/// There is no split if, and only if, the time of the latter can't be held.
pub open spec fn is_split_by(
    r: Range<Time>,
    tm: Tm,
    boundary_sec: i64,
    split: Option<DaySplit>,
) -> bool {
    &&& may_be_local_time(
        quotient_toward_zero(r.start.0 as int, TIME_UNITS_PER_SEC as int) as i64,
        tm,
    )
    &&& may_be_seconds_at(tm.spec_next_midnight(), boundary_sec)
    &&& match split {
        None => held_time(boundary_sec) is None,
        Some(s) => {
            &&& s.valid()
            &&& is_key_if_any(s.first, tm)
            &&& held_time(boundary_sec) == Some(s.boundary)
            &&& exists|next: Tm| #[trigger]
                may_be_local_time(boundary_sec, next) && is_key_if_any(s.second, next)
        },
    }
}

/// Adjusts the day map `m` to reflect `sign` recordings of the range `r`, if the days that the
/// range is split into are known and all sums can be held.
pub fn adjust_days_if_fit(r: Range<Time>, sign: i64, split: Option<DaySplit>, m: &mut DayMap)
    ensures
        final(m)@ == days_adjusted_if_fit(old(m)@, r, sign as int, split),
{
    if let Some(s) = split {
        if can_adjust_days_at(&r, sign, &s, m) {
            adjust_days_at(r, sign, s, m);
        }
    }
}

/// Adjusts the day map `m` to reflect `sign` recordings of the range `r`, going by the local time
/// zone.
///
/// This ignores dates that can't be written as keys, because they shouldn't happen and there's not
/// much that can be done about them.
pub fn adjust_days(r: Range<Time>, sign: i64, m: &mut DayMap)
    ensures
        days_adjusted_somehow(old(m)@, r, sign as int, final(m)@),
{
    let split = day_split(&r);
    adjust_days_if_fit(r, sign, split, m);
}

/// The time range that starts `start` seconds after the epoch and ends at `end` seconds.
pub fn day_range(start: i64, end: i64) -> (r: Range<Time>)
    requires
        fits(start * TIME_UNITS_PER_SEC),
        fits(end * TIME_UNITS_PER_SEC),
    ensures
        r.start.0 == start * TIME_UNITS_PER_SEC,
        r.end.0 == end * TIME_UNITS_PER_SEC,
{
    Time(start * TIME_UNITS_PER_SEC)..Time(end * TIME_UNITS_PER_SEC)
}

/// The time range that starts `start` seconds after the epoch and ends at `end` seconds, if both
/// can be held.
pub open spec fn held_range(start: i64, end: i64) -> Option<Range<Time>> {
    match (held_time(start), held_time(end)) {
        (Some(start), Some(end)) => Some(Range { start, end }),
        _ => None,
    }
}

/// The time range that starts `start` seconds after the epoch and ends at `end` seconds, if both
/// can be held.
pub fn day_range_if_held(start: i64, end: i64) -> (r: Option<Range<Time>>)
    ensures
        r == held_range(start, end),
        r matches Some(range) ==> range.start.0 % TIME_UNITS_PER_SEC == 0 && range.end.0
            % TIME_UNITS_PER_SEC == 0,
{
    if time_at_second(start).is_none() || time_at_second(end).is_none() {
        return None;
    }
    Some(day_range(start, end))
}

impl StreamDayKey {
    /// The calendar time, in the local time zone, at which a day starts. Whether daylight saving
    /// time is in effect is left open.
    pub open spec fn spec_midnight(self) -> Tm {
        Tm { tm_utcoff: 1, tm_isdst: (-1) as i32, ..date_midnight(self@) }
    }

    /// The calendar times at which this day and the next one start, in the local time zone and not
    /// normalized.
    pub fn midnights(&self) -> (r: (Tm, Tm))
        requires
            is_date(self@),
        ensures
            r.0 == self.spec_midnight(),
            r.1 == self.spec_midnight().spec_next_midnight(),
    {
        proof {
            lemma_ascii_is_utf8(self@);
        }
        let tm = match parsed_date(self.as_ref()) {
            Some(tm) => tm,
            None => vstd::pervasive::unreached(),
        };
        // Any offset but zero means local time.
        let tm = Tm { tm_utcoff: 1, tm_isdst: -1, ..tm };
        (tm, tm.next_midnight())
    }

    /// The start and the end of the day in the local time zone, if both can be held: when the
    /// calendar says that this day and the next one start.
    pub fn bounds(&self) -> (r: Option<Range<Time>>)
        requires
            is_date(self@),
        ensures
            exists|start: i64, end: i64| #[trigger] are_bounds_by(*self, start, end, r),
            r matches Some(range) ==> range.start.0 % TIME_UNITS_PER_SEC == 0 && range.end.0
                % TIME_UNITS_PER_SEC == 0,
    {
        let (start, end) = self.midnights();
        let start: i64 = calendar_seconds(&start);
        let end: i64 = calendar_seconds(&end);
        let r = day_range_if_held(start, end);
        assert(are_bounds_by(*self, start, end, r));
        r
    }
}

/// Whether `r` are the bounds of the day `key` by a calendar that says that the day starts `start`
/// seconds after the epoch, and the next one at `end` seconds.
pub open spec fn are_bounds_by(
    key: StreamDayKey,
    start: i64,
    end: i64,
    r: Option<Range<Time>>,
) -> bool {
    &&& may_be_seconds_at(key.spec_midnight(), start)
    &&& may_be_seconds_at(key.spec_midnight().spec_next_midnight(), end)
    &&& r == held_range(start, end)
}

/// Whether the date `b` is the day after the date `a`, and both are in the same month.
pub open spec fn is_next_in_month(a: Seq<u8>, b: Seq<u8>) -> bool {
    &&& is_date(a) && is_date(b)
    &&& date_year(a) == date_year(b)
    &&& date_month(a) == date_month(b)
    &&& date_day(a) + 1 == date_day(b)
}

/// Within a month, the calendar is asked the same about the end of a day as about the start of the
/// next one.
pub proof fn lemma_day_ends_at_next(a: StreamDayKey, b: StreamDayKey)
    requires
        is_next_in_month(a@, b@),
    ensures
        a.spec_midnight().spec_next_midnight() == b.spec_midnight(),
        forall|sec: i64|
            may_be_seconds_at(a.spec_midnight().spec_next_midnight(), sec)
                <==> #[trigger] may_be_seconds_at(b.spec_midnight(), sec),
{
}

/// Two days tile the time that they cover, if the calendar says that the second starts at the time
/// at which it says that the first ends. Each point in time from the start of the first to the end
/// of the second is in one of them, and no point in time is in both.
pub proof fn lemma_days_tile(
    a: StreamDayKey,
    b: StreamDayKey,
    start: i64,
    middle: i64,
    end: i64,
    first: Range<Time>,
    second: Range<Time>,
)
    requires
        are_bounds_by(a, start, middle, Some(first)),
        are_bounds_by(b, middle, end, Some(second)),
    ensures
        first.end == second.start,
        forall|t: Time|
            first.start.0 <= t.0 < second.end.0 ==> #[trigger] is_within(first, t) || is_within(
                second,
                t,
            ),
        forall|t: Time| !(#[trigger] is_within(first, t) && is_within(second, t)),
{
}

/// Whether the point in time `t` is in the range `r`.
pub open spec fn is_within(r: Range<Time>, t: Time) -> bool {
    r.start.0 <= t.0 < r.end.0
}

/// Whether every day in `m` has recordings.
pub open spec fn no_empty_days(m: Map<Seq<u8>, StreamDayValue>) -> bool {
    forall|k: Seq<u8>| #[trigger] m.contains_key(k) ==> m[k].recordings != 0
}

/// What is merged leaves no days without recordings behind.
pub proof fn lemma_merge_prunes(
    a: Map<Seq<u8>, StreamDayValue>,
    b: Map<Seq<u8>, StreamDayValue>,
)
    requires
        no_empty_days(a),
        merge_fits(a, b),
    ensures
        no_empty_days(days_merged(a, b)),
{
    assert forall|k: Seq<u8>| #[trigger] days_merged(a, b).contains_key(k) implies days_merged(
        a,
        b,
    )[k].recordings != 0 by {
        if b.contains_key(k) {
            assert(day_fits(a, k, b[k]));
        }
    }
}

/// Whether every day in `m` has a positive number of recordings.
pub open spec fn counts_positive(m: Map<Seq<u8>, StreamDayValue>) -> bool {
    forall|k: Seq<u8>| #[trigger] m.contains_key(k) ==> m[k].recordings > 0
}

/// Days with no recordings are pruned: an adjustment leaves none behind.
pub proof fn lemma_adjust_prunes(
    m: Map<Seq<u8>, StreamDayValue>,
    r: Range<Time>,
    sign: i64,
    split: DaySplit,
)
    requires
        sign != 0,
        no_empty_days(m),
        days_fit(m, r, sign as int, split),
    ensures
        no_empty_days(days_adjusted(m, r, sign as int, split)),
{
}

/// Adding recordings keeps every day's count positive.
pub proof fn lemma_adding_keeps_positive(
    m: Map<Seq<u8>, StreamDayValue>,
    r: Range<Time>,
    sign: i64,
    split: DaySplit,
)
    requires
        sign > 0,
        counts_positive(m),
        days_fit(m, r, sign as int, split),
    ensures
        counts_positive(days_adjusted(m, r, sign as int, split)),
{
}

/// `delta` the other way round.
pub open spec fn negated(delta: StreamDayValue) -> StreamDayValue {
    StreamDayValue {
        recordings: (-delta.recordings) as i64,
        duration: Duration((-delta.duration.0) as i64),
    }
}

/// Adjusting a day by the negated delta undoes the adjustment, unless the day had no recordings, or
/// was pruned in between.
pub proof fn lemma_adjust_day_undone(
    m: Map<Seq<u8>, StreamDayValue>,
    day: Seq<u8>,
    delta: StreamDayValue,
)
    requires
        delta.recordings != 0,
        delta.recordings > i64::MIN,
        delta.duration.0 > i64::MIN,
        day_fits(m, day, delta),
        m.contains_key(day) ==> m[day].recordings != 0 && m[day].recordings + delta.recordings
            != 0,
    ensures
        day_fits(day_adjusted(m, day, delta), day, negated(delta)),
        day_adjusted(day_adjusted(m, day, delta), day, negated(delta)) == m,
{
    assert(day_adjusted(day_adjusted(m, day, delta), day, negated(delta)) =~= m);
}

/// The order in which two days are adjusted makes no difference, as long as no count drops to
/// zero in between.
pub proof fn lemma_adjust_day_commutes(
    m: Map<Seq<u8>, StreamDayValue>,
    a: Seq<u8>,
    da: StreamDayValue,
    b: Seq<u8>,
    db: StreamDayValue,
)
    requires
        a != b || (counts_positive(m) && da.recordings > 0 && db.recordings > 0),
        day_fits(m, a, da),
        day_fits(day_adjusted(m, a, da), b, db),
        day_fits(m, b, db),
        day_fits(day_adjusted(m, b, db), a, da),
    ensures
        day_adjusted(day_adjusted(m, a, da), b, db) == day_adjusted(
            day_adjusted(m, b, db),
            a,
            da,
        ),
{
    assert(day_adjusted(day_adjusted(m, a, da), b, db) =~= day_adjusted(
        day_adjusted(m, b, db),
        a,
        da,
    ));
}

/// Removing the recordings that were just added restores the day map.
pub proof fn lemma_adjust_days_undone(
    m: Map<Seq<u8>, StreamDayValue>,
    r: Range<Time>,
    sign: i64,
    split: DaySplit,
)
    requires
        sign > 0,
        counts_positive(m),
        days_fit(m, r, sign as int, split),
        days_fit(days_adjusted(m, r, sign as int, split), r, -sign, split),
    ensures
        days_adjusted(days_adjusted(m, r, sign as int, split), r, -sign, split) == m,
{
    if split.first is Some {
        let k1 = split.first->0@;
        let d1 = day_delta(sign as int, split.before(r));
        let e1 = day_delta(-sign, split.before(r));
        let x = split.before(r);
        assert((-sign) * x == -(sign * x)) by (nonlinear_arith);
        assert(e1 == negated(d1));
        let m1 = day_adjusted(m, k1, d1);
        assert(counts_positive(m1));
        lemma_adjust_day_undone(m, k1, d1);
        if split.spans(r) && split.second is Some {
            let k2 = split.second->0@;
            let d2 = day_delta(sign as int, split.after(r));
            let e2 = day_delta(-sign, split.after(r));
            let y = split.after(r);
            assert((-sign) * y == -(sign * y)) by (nonlinear_arith);
            assert(e2 == negated(d2));
            let m2 = day_adjusted(m1, k2, d2);
            lemma_adjust_day_undone(m1, k2, d2);
            if k1 == k2 {
                assert(day_adjusted(day_adjusted(m2, k1, e1), k2, e2) =~= m);
            } else {
                assert(day_adjusted(day_adjusted(m2, k1, e1), k2, e2) =~= day_adjusted(
                    day_adjusted(m2, k2, e2),
                    k1,
                    e1,
                ));
            }
        }
    }
}

/// A recording that is added and then removed leaves the day map as it was, if the calendar says
/// the same both times. The recording does not end before it starts, and the next day does not
/// start before the recording does.
pub proof fn lemma_adjust_days_and_back(
    m: Map<Seq<u8>, StreamDayValue>,
    r: Range<Time>,
    split: Option<DaySplit>,
)
    requires
        counts_positive(m),
        r.start.0 <= r.end.0,
        split matches Some(s) ==> r.start.0 <= s.boundary.0 && days_fit(m, r, 1, s),
    ensures
        days_adjusted_if_fit(days_adjusted_if_fit(m, r, 1, split), r, -1, split) == m,
{
    if split is Some {
        let s = split->0;
        let m2 = days_adjusted(m, r, 1, s);
        assert(days_fit(m2, r, -1, s)) by {
            if s.first is Some {
                let k1 = s.first->0@;
                let d1 = day_delta(1, s.before(r));
                let e1 = day_delta(-1, s.before(r));
                assert(e1 == negated(d1));
                let m1 = day_adjusted(m, k1, d1);
                assert(day_fits(m2, k1, e1));
                if s.spans(r) && s.second is Some {
                    let k2 = s.second->0@;
                    let d2 = day_delta(1, s.after(r));
                    let e2 = day_delta(-1, s.after(r));
                    assert(e2 == negated(d2));
                    assert(m2 == day_adjusted(m1, k2, d2));
                    assert(day_fits(day_adjusted(m2, k1, e1), k2, e2));
                }
            }
        }
        lemma_adjust_days_undone(m, r, 1, s);
    }
}

/// What an adjustment adds to the first and the second day is the length of the whole range.
pub proof fn lemma_split_total(r: Range<Time>, split: DaySplit)
    ensures
        split.spans(r) ==> split.before(r) + split.after(r) == r.end.0 - r.start.0,
        !split.spans(r) ==> split.before(r) == r.end.0 - r.start.0,
{
}

/// The number of recordings on `day` and their total duration.
pub open spec fn recorded_on(m: Map<Seq<u8>, StreamDayValue>, day: Seq<u8>) -> (int, int) {
    if m.contains_key(day) {
        (m[day].recordings as int, m[day].duration.0 as int)
    } else {
        (0, 0)
    }
}

/// How long `a` and `b` overlap.
pub open spec fn overlap(a: Range<Time>, b: Range<Time>) -> int {
    let start = if a.start.0 > b.start.0 {
        a.start.0
    } else {
        b.start.0
    };
    let end = if a.end.0 < b.end.0 {
        a.end.0
    } else {
        b.end.0
    };
    if start < end {
        end - start
    } else {
        0
    }
}

/// A recording adds to each day the time that it overlaps with the day's bounds. It counts for the
/// day that it starts on, and for the next day if it overlaps with that.
///
/// This is so if the calendar says of the two days what it says of the split: the first ends and
/// the second starts at the boundary, the recording starts within the first, and it ends no later
/// than the second does.
pub proof fn lemma_days_get_overlap(
    m: Map<Seq<u8>, StreamDayValue>,
    r: Range<Time>,
    split: DaySplit,
    a: StreamDayKey,
    b: StreamDayKey,
    start: i64,
    middle: i64,
    end: i64,
    first: Range<Time>,
    second: Range<Time>,
)
    requires
        counts_positive(m),
        days_fit(m, r, 1, split),
        split.first == Some(a),
        split.second == Some(b),
        held_time(middle) == Some(split.boundary),
        are_bounds_by(a, start, middle, Some(first)),
        are_bounds_by(b, middle, end, Some(second)),
        a@ != b@,
        first.start.0 <= r.start.0 < first.end.0,
        r.start.0 <= r.end.0 <= second.end.0,
    ensures
        ({
            let after = days_adjusted(m, r, 1, split);
            let more: int = if overlap(r, second) > 0 {
                1
            } else {
                0
            };
            &&& overlap(r, first) + overlap(r, second) == r.end.0 - r.start.0
            &&& recorded_on(after, a@) == (
                recorded_on(m, a@).0 + 1,
                recorded_on(m, a@).1 + overlap(r, first),
            )
            &&& recorded_on(after, b@) == (
                recorded_on(m, b@).0 + more,
                recorded_on(m, b@).1 + overlap(r, second),
            )
            &&& forall|day: Seq<u8>|
                day != a@ && day != b@ ==> #[trigger] recorded_on(after, day) == recorded_on(m, day)
        }),
{
}

/// Days that the range does not touch keep what they had.
pub proof fn lemma_other_days_kept(
    m: Map<Seq<u8>, StreamDayValue>,
    r: Range<Time>,
    sign: i64,
    split: DaySplit,
    day: Seq<u8>,
)
    requires
        split.first matches Some(k) ==> k@ != day,
        split.second matches Some(k) ==> k@ != day,
    ensures
        days_adjusted(m, r, sign as int, split).contains_key(day) <==> m.contains_key(day),
        m.contains_key(day) ==> days_adjusted(m, r, sign as int, split)[day] == m[day],
{
}

/// Adding to a day adds to the number of its recordings and to their duration, and to no other day.
/// A day that is left with no recordings is forgotten.
pub proof fn lemma_day_sums(m: Map<Seq<u8>, StreamDayValue>, day: Seq<u8>, delta: StreamDayValue)
    requires
        day_fits(m, day, delta),
    ensures
        ({
            let after = day_adjusted(m, day, delta);
            let count = recorded_on(m, day).0 + delta.recordings;
            let length = recorded_on(m, day).1 + delta.duration.0;
            &&& m.contains_key(day) && count == 0 ==> !after.contains_key(day)
            &&& !(m.contains_key(day) && count == 0) ==> after.contains_key(day) && recorded_on(
                after,
                day,
            ) == (count, length)
            &&& forall|other: Seq<u8>|
                other != day ==> (#[trigger] after.contains_key(other) <==> m.contains_key(other))
                    && after[other] == m[other]
        }),
{
}

/// Adding to the change of a day adds to the change in the number of its recordings and in their
/// duration, and to that of no other day.
pub proof fn lemma_change_sums(
    m: Map<Seq<u8>, StreamDayValue>,
    day: Seq<u8>,
    delta: StreamDayValue,
)
    requires
        day_fits(m, day, delta),
    ensures
        ({
            let after = change_adjusted(m, day, delta);
            &&& recorded_on(after, day) == (
                recorded_on(m, day).0 + delta.recordings,
                recorded_on(m, day).1 + delta.duration.0,
            )
            &&& forall|other: Seq<u8>|
                other != day ==> (#[trigger] after.contains_key(other) <==> m.contains_key(other))
                    && after[other] == m[other]
        }),
{
}

/// Merging adds up the recordings and the durations of each day. A day with recordings on either
/// side is forgotten exactly if none are left.
pub proof fn lemma_merged_sums(
    a: Map<Seq<u8>, StreamDayValue>,
    b: Map<Seq<u8>, StreamDayValue>,
    day: Seq<u8>,
)
    requires
        merge_fits(a, b),
        no_empty_days(a),
    ensures
        ({
            let after = days_merged(a, b);
            let count = recorded_on(a, day).0 + recorded_on(b, day).0;
            let length = recorded_on(a, day).1 + recorded_on(b, day).1;
            &&& after.contains_key(day) <==> count != 0
            &&& after.contains_key(day) ==> recorded_on(after, day) == (count, length)
        }),
{
    assert(b.contains_key(day) ==> day_fits(a, day, b[day]));
    assert(a.contains_key(day) ==> a[day].recordings != 0);
    assert(days_merged(a, b).contains_key(day) <==> merged_value(a, b, day) is Some);
}

/// Whether no number in `m` is greater than `n` either way.
pub open spec fn days_below(m: Map<Seq<u8>, StreamDayValue>, n: int) -> bool {
    forall|day: Seq<u8>| #[trigger]
        m.contains_key(day) ==> -n <= m[day].recordings <= n && -n <= m[day].duration.0 <= n
}

/// A recording can be added to the days, or taken away from them, as long as no time and no sum is
/// near the limits of what can be held.
pub proof fn lemma_ordinary_days_fit(
    m: Map<Seq<u8>, StreamDayValue>,
    r: Range<Time>,
    sign: int,
    split: DaySplit,
)
    requires
        sign == 1 || sign == -1,
        -0x1000_0000_0000_0000 <= r.start.0 <= 0x1000_0000_0000_0000,
        -0x1000_0000_0000_0000 <= r.end.0 <= 0x1000_0000_0000_0000,
        -0x1000_0000_0000_0000 <= split.boundary.0 <= 0x1000_0000_0000_0000,
        days_below(m, 0x1000_0000_0000_0000),
    ensures
        days_fit(m, r, sign, split),
        changes_fit(m, r, sign, split),
{
    if split.first is Some {
        let first = split.first->0@;
        let delta = day_delta(sign, split.before(r));
        assert(m.contains_key(first) ==> -0x1000_0000_0000_0000 <= m[first].duration.0
            <= 0x1000_0000_0000_0000);
        assert(sign * split.before(r) == split.before(r) || sign * split.before(r)
            == -split.before(r)) by (nonlinear_arith)
            requires
                sign == 1 || sign == -1,
        ;
        if split.spans(r) && split.second is Some {
            let second = split.second->0@;
            assert(m.contains_key(second) ==> -0x1000_0000_0000_0000 <= m[second].duration.0
                <= 0x1000_0000_0000_0000);
            assert(sign * split.after(r) == split.after(r) || sign * split.after(r)
                == -split.after(r)) by (nonlinear_arith)
                requires
                    sign == 1 || sign == -1,
            ;
            lemma_day_sums(m, first, delta);
            lemma_change_sums(m, first, delta);
        }
    }
}

/// The midnight after a calendar time is on the next day of the month at zero hours, with daylight
/// saving time left open. It is in the same month, year and time zone.
pub proof fn lemma_next_midnight(tm: Tm)
    requires
        tm.tm_mday < i32::MAX,
    ensures
        ({
            let next = tm.spec_next_midnight();
            &&& next.tm_mday == tm.tm_mday + 1
            &&& next.tm_hour == 0 && next.tm_min == 0 && next.tm_sec == 0
            &&& next.tm_isdst == -1
            &&& next.tm_mon == tm.tm_mon && next.tm_year == tm.tm_year
            &&& next.tm_utcoff == tm.tm_utcoff && next.tm_nsec == tm.tm_nsec
        }),
{
}

/// A day starts at zero hours of its date, in the local time zone, with daylight saving time left
/// open.
pub proof fn lemma_midnight(key: StreamDayKey)
    requires
        is_date(key@),
    ensures
        ({
            let start = key.spec_midnight();
            &&& start.tm_year + 1900 == date_year(key@)
            &&& start.tm_mon + 1 == date_month(key@)
            &&& start.tm_mday == date_day(key@)
            &&& start.tm_hour == 0 && start.tm_min == 0 && start.tm_sec == 0 && start.tm_nsec == 0
            &&& start.tm_isdst == -1
            &&& start.tm_utcoff != 0
        }),
{
}

/// Where a recording is split is what the calendar says of the second that it starts in: the first
/// day is that of the local time then; the boundary is when the next midnight is; and the second
/// day is that of the local time at the boundary.
pub proof fn lemma_split_follows_calendar(r: Range<Time>, split: Option<DaySplit>)
    requires
        call_ensures(day_split, (&r,), split),
    ensures
        split matches Some(s) ==> exists|sec: i64, tm: Tm, boundary_sec: i64, next: Tm|
            {
                &&& #[trigger] may_be_local_time(sec, tm)
                &&& r.start.0 >= 0 ==> sec * 90_000 <= r.start.0 < (sec + 1) * 90_000
                &&& r.start.0 < 0 ==> (sec - 1) * 90_000 < r.start.0 <= sec * 90_000
                &&& may_be_seconds_at(tm.spec_next_midnight(), boundary_sec)
                &&& s.boundary.0 == boundary_sec * 90_000
                &&& #[trigger] may_be_local_time(boundary_sec, next)
                &&& s.first matches Some(k) ==> k@ == padded(tm.date_text())
                &&& s.first is None <==> !tm.has_date() || tm.date_text().len() > 10
                &&& s.second matches Some(k) ==> k@ == padded(next.date_text())
                &&& s.second is None <==> !next.has_date() || next.date_text().len() > 10
            },
{
    if split is Some {
        let (tm, boundary_sec) = choose|tm: Tm, boundary_sec: i64| #[trigger]
            is_split_by(r, tm, boundary_sec, split);
        let sec = quotient_toward_zero(r.start.0 as int, TIME_UNITS_PER_SEC as int) as i64;
        let next = choose|next: Tm| #[trigger]
            may_be_local_time(boundary_sec, next) && is_key_if_any(split->0.second, next);
        assert(may_be_local_time(sec, tm));
        assert(may_be_local_time(boundary_sec, next));
    }
}

proof fn lemma_digit_byte(d: int)
    requires
        0 <= d <= 9,
    ensures
        digit_char(d) as u8 == d + 48,
{
}

proof fn lemma_two_digits(n: int)
    requires
        0 <= n <= 99,
    ensures
        ascii_bytes(decimal_two(n)) == seq![(n / 10 + 48) as u8, (n % 10 + 48) as u8],
{
    reveal_with_fuel(digits, 3);
    lemma_digit_byte(n / 10);
    lemma_digit_byte(n % 10);
    assert(decimal_two(n) =~= seq![digit_char(n / 10), digit_char(n % 10)]);
    assert(ascii_bytes(decimal_two(n)) =~= seq![(n / 10 + 48) as u8, (n % 10 + 48) as u8]);
}

proof fn lemma_four_digits(n: int)
    requires
        1000 <= n <= 9999,
    ensures
        ascii_bytes(decimal(n)) == seq![
            (n / 1000 + 48) as u8,
            (n / 100 % 10 + 48) as u8,
            (n / 10 % 10 + 48) as u8,
            (n % 10 + 48) as u8,
        ],
{
    let three = digits((n / 10) as nat);
    let two = digits((n / 100) as nat);
    let one = digits((n / 1000) as nat);
    assert(n / 10 / 10 == n / 100 && n / 100 / 10 == n / 1000);
    assert(one == seq![digit_char(n / 1000)]);
    assert(two == one.push(digit_char(n / 100 % 10)));
    assert(three == two.push(digit_char(n / 10 % 10)));
    assert(decimal(n) == three.push(digit_char(n % 10)));
    lemma_digit_byte(n / 1000);
    lemma_digit_byte(n / 100 % 10);
    lemma_digit_byte(n / 10 % 10);
    lemma_digit_byte(n % 10);
    assert(ascii_bytes(decimal(n)) =~= seq![
        (n / 1000 + 48) as u8,
        (n / 100 % 10 + 48) as u8,
        (n / 10 % 10 + 48) as u8,
        (n % 10 + 48) as u8,
    ]);
}

proof fn lemma_date_bytes(tm: Tm)
    ensures
        tm.date_text() == ascii_bytes(decimal(tm.tm_year + 1900)) + seq![45u8] + ascii_bytes(
            decimal_two(tm.tm_mon + 1),
        ) + seq![45u8] + ascii_bytes(decimal_two(tm.tm_mday as int)),
{
    let year = decimal(tm.tm_year + 1900);
    let month = decimal_two(tm.tm_mon + 1);
    let day = decimal_two(tm.tm_mday as int);
    assert(tm.date_text() =~= ascii_bytes(year) + seq![45u8] + ascii_bytes(month) + seq![45u8]
        + ascii_bytes(day));
}

proof fn lemma_joined_bytes(a: Seq<u8>, b: Seq<u8>, c: Seq<u8>)
    requires
        a.len() == 4,
        b.len() == 2,
        c.len() == 2,
    ensures
        ({
            let s = a + seq![45u8] + b + seq![45u8] + c;
            &&& s.len() == 10
            &&& s[0] == a[0] && s[1] == a[1] && s[2] == a[2] && s[3] == a[3]
            &&& s[4] == 45
            &&& s[5] == b[0] && s[6] == b[1]
            &&& s[7] == 45
            &&& s[8] == c[0] && s[9] == c[1]
        }),
{
}

proof fn lemma_date_value(s: Seq<u8>, y: int, m: int, d: int)
    requires
        1000 <= y <= 9999,
        1 <= m <= 12,
        1 <= d <= 31,
        s.len() == 10,
        s[0] == y / 1000 + 48,
        s[1] == y / 100 % 10 + 48,
        s[2] == y / 10 % 10 + 48,
        s[3] == y % 10 + 48,
        s[4] == 45,
        s[5] == m / 10 + 48,
        s[6] == m % 10 + 48,
        s[7] == 45,
        s[8] == d / 10 + 48,
        s[9] == d % 10 + 48,
    ensures
        is_date(s),
        date_year(s) == y,
        date_month(s) == m,
        date_day(s) == d,
{
}

/// The key of a calendar time, in a year with four digits, is its date: it reads as such, with the
/// year, the month and the day of the calendar time.
pub proof fn lemma_key_is_date(tm: Tm, key: StreamDayKey)
    requires
        call_ensures(StreamDayKey::new, (tm,), Ok::<StreamDayKey, Error>(key)),
        1000 <= tm.tm_year + 1900 <= 9999,
        1 <= tm.tm_mday <= 31,
    ensures
        is_date(key@),
        date_year(key@) == tm.tm_year + 1900,
        date_month(key@) == tm.tm_mon + 1,
        date_day(key@) == tm.tm_mday,
{
    let y = tm.tm_year + 1900;
    let m = tm.tm_mon + 1;
    let d = tm.tm_mday as int;
    let text = tm.date_text();
    assert(tm.has_date() && key@ == padded(text));
    lemma_date_bytes(tm);
    lemma_four_digits(y);
    lemma_two_digits(m);
    lemma_two_digits(d);
    lemma_joined_bytes(
        ascii_bytes(decimal(y)),
        ascii_bytes(decimal_two(m)),
        ascii_bytes(decimal_two(d)),
    );
    assert(padded(text) =~= text);
    lemma_date_value(text, y, m, d);
}

/// Merging goes day by day. A day that only one side has stays as it is, but for a change that is
/// not about recordings; a day that both have is added up, and forgotten if no recordings are left.
pub proof fn lemma_merged_by_day(
    a: Map<Seq<u8>, StreamDayValue>,
    b: Map<Seq<u8>, StreamDayValue>,
    day: Seq<u8>,
)
    requires
        merge_fits(a, b),
    ensures
        ({
            let after = days_merged(a, b);
            &&& !b.contains_key(day) ==> (after.contains_key(day) <==> a.contains_key(day)) && (
            a.contains_key(day) ==> after[day] == a[day])
            &&& b.contains_key(day) && !a.contains_key(day) ==> (after.contains_key(day)
                <==> b[day].recordings != 0) && (after.contains_key(day) ==> after[day] == b[day])
            &&& b.contains_key(day) && a.contains_key(day) ==> {
                let count = a[day].recordings + b[day].recordings;
                &&& after.contains_key(day) <==> count != 0
                &&& count != 0 ==> after[day].recordings == count && after[day].duration.0
                    == a[day].duration.0 + b[day].duration.0
            }
        }),
{
    assert(b.contains_key(day) ==> day_fits(a, day, b[day]));
    assert(days_merged(a, b).contains_key(day) <==> merged_value(a, b, day) is Some);
}

/// A number of recordings is added to the day that they start on, with their time up to the
/// boundary; and then, if they go on past it, to the next day, with the rest of their time. It is
/// the same for changes of days. Nothing is added if the first day can't be known.
pub proof fn lemma_added_to_both_days(
    m: Map<Seq<u8>, StreamDayValue>,
    r: Range<Time>,
    sign: int,
    split: DaySplit,
)
    ensures
        ({
            let until = if r.end.0 < split.boundary.0 {
                r.end.0
            } else {
                split.boundary.0
            };
            let goes_on = r.end.0 > split.boundary.0 && split.second is Some;
            let d1 = StreamDayValue {
                recordings: sign as i64,
                duration: Duration((sign * (until - r.start.0)) as i64),
            };
            let d2 = StreamDayValue {
                recordings: sign as i64,
                duration: Duration((sign * (r.end.0 - split.boundary.0)) as i64),
            };
            match split.first {
                None => days_adjusted(m, r, sign, split) == m && changes_adjusted(
                    m,
                    r,
                    sign,
                    split,
                ) == m,
                Some(first) => {
                    let days = day_adjusted(m, first@, d1);
                    let changes = change_adjusted(m, first@, d1);
                    &&& days_adjusted(m, r, sign, split) == if goes_on {
                        day_adjusted(days, split.second->0@, d2)
                    } else {
                        days
                    }
                    &&& changes_adjusted(m, r, sign, split) == if goes_on {
                        change_adjusted(changes, split.second->0@, d2)
                    } else {
                        changes
                    }
                },
            }
        }),
{
}

/// The days change exactly if the split is known and all sums can be held.
pub proof fn lemma_adjusted_if_fit(
    m: Map<Seq<u8>, StreamDayValue>,
    r: Range<Time>,
    sign: int,
    split: Option<DaySplit>,
)
    ensures
        split is None ==> days_adjusted_if_fit(m, r, sign, split) == m
            && changes_adjusted_if_fit(m, r, sign, split) == m,
        split matches Some(s) ==> {
            &&& days_adjusted_if_fit(m, r, sign, split) == if days_fit(m, r, sign, s) {
                days_adjusted(m, r, sign, s)
            } else {
                m
            }
            &&& changes_adjusted_if_fit(m, r, sign, split) == if changes_fit(m, r, sign, s) {
                changes_adjusted(m, r, sign, s)
            } else {
                m
            }
        },
{
}

/// A key is the text of its date, filled up with zero bytes.
pub proof fn lemma_padded(text: Seq<u8>)
    requires
        text.len() <= 10,
    ensures
        padded(text).len() == 10,
        padded(text).take(text.len() as int) == text,
        forall|i: int| text.len() <= i < 10 ==> #[trigger] padded(text)[i] == 0,
{
    assert(padded(text).take(text.len() as int) =~= text);
}

} // verus!
