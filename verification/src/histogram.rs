//! Logons per user and hour of the day.

use vstd::prelude::*;
use crate::event::EventLogon;
use crate::event::LogonModel;
use crate::event::logon_models;
use crate::number::usize_of;
use crate::ranking::is_ranking;
use crate::ranking::ranking_of;

verus! {

/// The number of hours in a day.
pub const HOURS: usize = 24;

/// Whether a scan of a time stops at `c`: at a `T` always, at a colon where
/// `colon` says so.
pub open spec fn stops(c: char, colon: bool) -> bool {
    c == 'T' || (colon && c == ':')
}

/// The first place of `s` from `from` on at which a scan stops, and the
/// length of `s` where it stops nowhere.
pub open spec fn scan(s: Seq<char>, from: int, colon: bool) -> int
    decreases s.len() - from,
{
    if from < 0 || from >= s.len() {
        s.len() as int
    } else if stops(s[from], colon) {
        from
    } else {
        scan(s, from + 1, colon)
    }
}

/// The text of the hour in the time `time`: what stands behind the first
/// `T`, up to the next `T` or colon. `None` where `time` holds no `T`.
pub open spec fn hour_text(time: Seq<char>) -> Option<Seq<char>> {
    let t = scan(time, 0, false);
    if t >= time.len() {
        None
    } else {
        Some(time.subrange(t + 1, scan(time, t + 1, true)))
    }
}

/// The hour of the day in the time `time`, where it gives one.
pub open spec fn hour_of(time: Seq<char>) -> Option<usize> {
    match hour_text(time) {
        Some(text) => match usize_of(text) {
            Some(hour) => if hour < HOURS {
                Some(hour)
            } else {
                None
            },
            None => None,
        },
        None => None,
    }
}

/// The first place of `chars` from `from` on at which a scan stops.
fn scan_chars(chars: &Vec<char>, from: usize, colon: bool) -> (place: usize)
    requires
        from <= chars@.len(),
    ensures
        place == scan(chars@, from as int, colon),
        from <= place <= chars@.len(),
{
    let mut i: usize = from;
    while i < chars.len()
        invariant
            from <= i <= chars@.len(),
            scan(chars@, from as int, colon) == scan(chars@, i as int, colon),
        decreases chars@.len() - i,
    {
        let c = chars[i];
        if c == 'T' || (colon && c == ':') {
            return i;
        }
        i = i + 1;
    }
    i
}

/// The hour of the day at which a logon was written, from its time in ISO
/// 8601 format.
pub fn logon_hour(time_created: &str) -> (hour: Option<usize>)
    ensures
        hour == hour_of(time_created@),
        hour matches Some(h) ==> h < HOURS,
{
    let chars = crate::text::chars_of(time_created);
    let t = scan_chars(&chars, 0, false);
    if t >= chars.len() {
        return None;
    }
    let end = scan_chars(&chars, t + 1, true);
    let text = crate::text::string_of(&chars, t + 1, end);
    match crate::number::parse_usize(text.as_str()) {
        Some(hour) => if hour < HOURS {
            Some(hour)
        } else {
            None
        },
        None => None,
    }
}

/// The logons of one user by the hour of the day.
#[derive(Debug, Clone, PartialEq, Eq)]
pub struct UserHours {
    /// The name of the user who logged on.
    pub user: String,
    /// The number of logons in each hour of the day.
    pub hours: [usize; 24],
}

/// What a [`UserHours`] holds.
pub struct RowModel {
    pub user: Seq<char>,
    pub hours: Seq<usize>,
}

impl View for UserHours {
    type V = RowModel;

    open spec fn view(&self) -> RowModel {
        RowModel { user: self.user@, hours: self.hours@ }
    }
}

/// The logons of every user by the hour of the day, one row for each user.
#[derive(Debug, Clone, PartialEq, Eq)]
pub struct Histogram {
    pub rows: Vec<UserHours>,
}

impl View for Histogram {
    type V = Seq<RowModel>;

    open spec fn view(&self) -> Seq<RowModel> {
        self.rows@.map_values(|row: UserHours| row@)
    }
}

/// The users who logged on in `logons`, each once, in the order in which
/// they first occur.
pub open spec fn users_of(logons: Seq<LogonModel>) -> Seq<Seq<char>>
    decreases logons.len(),
{
    if logons.len() == 0 {
        Seq::empty()
    } else {
        let before = users_of(logons.drop_last());
        if before.contains(logons.last().target_user_name) {
            before
        } else {
            before.push(logons.last().target_user_name)
        }
    }
}

/// How many of `logons` are of the user `user`.
pub open spec fn count_of(logons: Seq<LogonModel>, user: Seq<char>) -> nat
    decreases logons.len(),
{
    if logons.len() == 0 {
        0
    } else {
        count_of(logons.drop_last(), user) + (if logons.last().target_user_name == user {
            1nat
        } else {
            0nat
        })
    }
}

/// How many of `logons` are of the user `user` and in the hour `hour`.
pub open spec fn count_at(logons: Seq<LogonModel>, user: Seq<char>, hour: int) -> nat
    decreases logons.len(),
{
    if logons.len() == 0 {
        0
    } else {
        count_at(logons.drop_last(), user, hour) + (if logons.last().target_user_name == user
            && hour_of(logons.last().time_created) == Some(hour as usize) && 0 <= hour < HOURS {
            1nat
        } else {
            0nat
        })
    }
}

/// The place of the first of `logons` whose time gives no hour of the day.
pub open spec fn first_untimed(logons: Seq<LogonModel>) -> Option<int>
    decreases logons.len(),
{
    if logons.len() == 0 {
        None
    } else {
        match first_untimed(logons.drop_last()) {
            Some(i) => Some(i),
            None => if hour_of(logons.last().time_created) is None {
                Some(logons.len() - 1)
            } else {
                None
            },
        }
    }
}

/// Whether `table` is the histogram of `logons`: a row for each user in the
/// order in which the users first occur, and in each row the number of that
/// user's logons in each hour.
pub open spec fn tallies(logons: Seq<LogonModel>, table: Seq<RowModel>) -> bool {
    &&& table.len() == users_of(logons).len()
    &&& forall|r: int|
        0 <= r < table.len() ==> {
            &&& (#[trigger] table[r]).user == users_of(logons)[r]
            &&& table[r].hours.len() == HOURS
        }
    &&& forall|r: int, h: int|
        0 <= r < table.len() && 0 <= h < HOURS ==> #[trigger] table[r].hours[h] == count_at(
            logons,
            users_of(logons)[r],
            h,
        )
}

/// The histogram of `logons`: a row for each user in the order in which the
/// users first occur, and in each row the number of that user's logons in
/// each hour.
pub open spec fn histogram_of(logons: Seq<LogonModel>) -> Seq<RowModel> {
    Seq::new(
        users_of(logons).len(),
        |r: int|
            RowModel {
                user: users_of(logons)[r],
                hours: Seq::new(
                    HOURS as nat,
                    |h: int| count_at(logons, users_of(logons)[r], h) as usize,
                ),
            },
    )
}

/// A table that tallies `logons` is their histogram.
pub proof fn lemma_tallies_histogram(logons: Seq<LogonModel>, table: Seq<RowModel>)
    requires
        tallies(logons, table),
    ensures
        table == histogram_of(logons),
{
    let other = histogram_of(logons);
    assert forall|r: int| 0 <= r < table.len() implies table[r] == other[r] by {
        assert forall|h: int| 0 <= h < HOURS implies table[r].hours[h] == other[r].hours[h] by {
            assert(table[r].hours[h] == count_at(logons, users_of(logons)[r], h));
        }
        assert(table[r].hours =~= other[r].hours);
    }
    assert(table =~= other);
}

/// A logon without an hour among the first logons is the first such logon
/// of them all.
pub proof fn lemma_untimed_stays(logons: Seq<LogonModel>, k: int)
    requires
        0 <= k <= logons.len(),
        first_untimed(logons.take(k)) is Some,
    ensures
        first_untimed(logons) == first_untimed(logons.take(k)),
    decreases logons.len() - k,
{
    if k < logons.len() {
        assert(logons.drop_last().take(k) =~= logons.take(k));
        lemma_untimed_stays(logons.drop_last(), k);
    } else {
        assert(logons.take(k) =~= logons);
    }
}

/// No user stands twice in `users_of`.
pub proof fn lemma_users_distinct(logons: Seq<LogonModel>)
    ensures
        forall|i: int, j: int|
            0 <= i < j < users_of(logons).len() ==> users_of(logons)[i] != users_of(logons)[j],
    decreases logons.len(),
{
    if logons.len() > 0 {
        lemma_users_distinct(logons.drop_last());
        let before = users_of(logons.drop_last());
        let last = logons.last().target_user_name;
        let users = users_of(logons);
        assert forall|i: int, j: int| 0 <= i < j < users.len() implies users[i] != users[j] by {
            if j < before.len() {
                assert(users[i] == before[i] && users[j] == before[j]);
            } else {
                assert(!before.contains(last));
                assert(users[i] == before[i]);
                assert(users[j] == last);
            }
        }
    }
}

/// A user who stands not in `users_of` has no logon.
pub proof fn lemma_absent_user(logons: Seq<LogonModel>, user: Seq<char>)
    requires
        !users_of(logons).contains(user),
    ensures
        count_of(logons, user) == 0,
        forall|h: int| count_at(logons, user, h) == 0,
    decreases logons.len(),
{
    if logons.len() > 0 {
        let before = users_of(logons.drop_last());
        let last = logons.last().target_user_name;
        if before.contains(last) {
            lemma_absent_user(logons.drop_last(), user);
        } else {
            assert(before.push(last).last() == last);
            assert(last != user);
            assert forall|k: int| 0 <= k < before.len() implies before[k] != user by {
                assert(before.push(last)[k] == before[k]);
            }
            lemma_absent_user(logons.drop_last(), user);
        }
        assert(last != user);
        assert forall|h: int| count_at(logons, user, h) == 0 by {
            assert(count_at(logons.drop_last(), user, h) == 0);
        }
    }
}

/// No more logons are counted than there are.
pub proof fn lemma_count_bounded(logons: Seq<LogonModel>, user: Seq<char>, hour: int)
    ensures
        count_at(logons, user, hour) <= count_of(logons, user) <= logons.len(),
    decreases logons.len(),
{
    if logons.len() > 0 {
        lemma_count_bounded(logons.drop_last(), user, hour);
    }
}

/// The place of the row of `user` among `rows`.
fn find_user(rows: &Vec<UserHours>, user: &String) -> (place: Option<usize>)
    ensures
        match place {
            Some(r) => r < rows@.len() && rows@[r as int].user@ == user@,
            None => forall|k: int| 0 <= k < rows@.len() ==> (#[trigger] rows@[k]).user@ != user@,
        },
{
    let mut r: usize = 0;
    while r < rows.len()
        invariant
            r <= rows@.len(),
            forall|k: int| 0 <= k < r ==> (#[trigger] rows@[k]).user@ != user@,
        decreases rows@.len() - r,
    {
        if rows[r].user == *user {
            return Some(r);
        }
        r = r + 1;
    }
    None
}

/// Counts the logons by user and hour of the day. Stops at the first logon
/// whose time gives no hour, and returns its place.
pub fn tally(logons: &Vec<EventLogon>) -> (table: Result<Histogram, usize>)
    ensures
        match table {
            Ok(table) => {
                &&& first_untimed(logon_models(logons@)) is None
                &&& tallies(logon_models(logons@), table@)
                &&& table@ == histogram_of(logon_models(logons@))
            },
            Err(place) => first_untimed(logon_models(logons@)) == Some(place as int),
        },
{
    let ghost all = logon_models(logons@);
    let mut rows: Vec<UserHours> = Vec::new();
    let mut i: usize = 0;
    assert(all.take(0) =~= Seq::<LogonModel>::empty());
    while i < logons.len()
        invariant
            i <= logons@.len(),
            all == logon_models(logons@),
            first_untimed(all.take(i as int)) is None,
            tallies(all.take(i as int), rows@.map_values(|row: UserHours| row@)),
        decreases logons@.len() - i,
    {
        let ghost seen = all.take(i as int);
        let ghost next = all.take(i as int + 1);
        let ghost before = rows@.map_values(|row: UserHours| row@);
        let logon = &logons[i];
        proof {
            assert(next.drop_last() =~= seen);
            assert(next.last() == logon@);
            lemma_users_distinct(seen);
        }
        let hour = match logon_hour(logon.TimeCreated.as_str()) {
            Some(hour) => hour,
            None => {
                proof {
                    lemma_untimed_stays(all, i as int + 1);
                }
                return Err(i);
            },
        };
        match find_user(&rows, &logon.TargetUserName) {
            Some(r) => {
                proof {
                    assert(before[r as int].user == users_of(seen)[r as int]);
                    assert(users_of(seen).contains(logon@.target_user_name));
                    assert(before[r as int].hours[hour as int] == count_at(
                        seen,
                        users_of(seen)[r as int],
                        hour as int,
                    ));
                    lemma_count_bounded(seen, logon@.target_user_name, hour as int);
                }
                rows[r].hours[hour] = rows[r].hours[hour] + 1;
                proof {
                    let after = rows@.map_values(|row: UserHours| row@);
                    assert(users_of(next) == users_of(seen));
                    assert forall|k: int| 0 <= k < after.len() implies {
                        &&& (#[trigger] after[k]).user == users_of(next)[k]
                        &&& after[k].hours.len() == HOURS
                    } by {
                        assert(before[k].user == users_of(seen)[k]);
                    }
                    assert forall|k: int, h: int|
                        0 <= k < after.len() && 0 <= h < HOURS implies #[trigger] after[k].hours[h]
                        == count_at(next, users_of(next)[k], h) by {
                        assert(before[k].hours[h] == count_at(seen, users_of(seen)[k], h));
                        assert(before[k].user == users_of(seen)[k]);
                    }
                }
            },
            None => {
                let mut hours: [usize; 24] = [0; 24];
                hours[hour] = 1;
                let ghost fresh = hours@;
                rows.push(UserHours { user: logon.TargetUserName.clone(), hours });
                proof {
                    let after = rows@.map_values(|row: UserHours| row@);
                    let user = logon@.target_user_name;
                    assert forall|k: int| 0 <= k < users_of(seen).len() implies users_of(seen)[k]
                        != user by {
                        assert(before[k].user == users_of(seen)[k]);
                    }
                    assert(!users_of(seen).contains(user));
                    lemma_absent_user(seen, user);
                    assert(users_of(next) == users_of(seen).push(user));
                    assert forall|k: int| 0 <= k < after.len() implies {
                        &&& (#[trigger] after[k]).user == users_of(next)[k]
                        &&& after[k].hours.len() == HOURS
                    } by {
                        if k < before.len() {
                            assert(after[k] == before[k]);
                            assert(before[k].user == users_of(seen)[k]);
                        }
                    }
                    assert forall|k: int, h: int|
                        0 <= k < after.len() && 0 <= h < HOURS implies #[trigger] after[k].hours[h]
                        == count_at(next, users_of(next)[k], h) by {
                        if k < before.len() {
                            assert(after[k] == before[k]);
                            assert(before[k].hours[h] == count_at(seen, users_of(seen)[k], h));
                            assert(before[k].user == users_of(seen)[k]);
                            assert(users_of(next)[k] == users_of(seen)[k]);
                        } else {
                            assert(after[k].hours == fresh);
                            assert(users_of(next)[k] == user);
                            assert(count_at(seen, user, h) == 0);
                            assert(hour_of(logon@.time_created) == Some(hour));
                        }
                    }
                }
            },
        }
        i = i + 1;
    }
    assert(all.take(i as int) =~= all);
    let table = Histogram { rows };
    proof {
        lemma_tallies_histogram(all, table@);
    }
    Ok(table)
}

/// The sum of `hours`.
pub open spec fn total(hours: Seq<usize>) -> nat
    decreases hours.len(),
{
    if hours.len() == 0 {
        0
    } else {
        total(hours.drop_last()) + hours.last() as nat
    }
}

/// The sum of a day's hours is under 24 times the greatest count.
pub proof fn lemma_total_bounded(hours: Seq<usize>)
    ensures
        total(hours) <= hours.len() * usize::MAX,
    decreases hours.len(),
{
    if hours.len() > 0 {
        lemma_total_bounded(hours.drop_last());
        assert((hours.len() - 1) * usize::MAX + usize::MAX == hours.len() * usize::MAX)
            by (nonlinear_arith);
    }
}

/// The total of each of `rows`.
pub open spec fn row_totals(rows: Seq<RowModel>) -> Seq<u128> {
    Seq::new(rows.len(), |r: int| total(rows[r].hours) as u128)
}

/// The rows `rows` in the order `order`.
pub open spec fn arranged(rows: Seq<RowModel>, order: Seq<usize>) -> Seq<RowModel> {
    Seq::new(order.len(), |i: int| rows[order[i] as int])
}

impl UserHours {
    /// The number of the user's logons.
    pub fn total(&self) -> (sum: u128)
        ensures
            sum == total(self.hours@),
    {
        let mut sum: u128 = 0;
        let mut h: usize = 0;
        assert(self.hours@.take(0) =~= Seq::<usize>::empty());
        while h < HOURS
            invariant
                h <= HOURS,
                self.hours@.len() == HOURS,
                sum == total(self.hours@.take(h as int)),
            decreases HOURS - h,
        {
            proof {
                let next = self.hours@.take(h as int + 1);
                assert(next.drop_last() =~= self.hours@.take(h as int));
                assert(next.last() == self.hours@[h as int]);
                lemma_total_bounded(next);
                assert(next.len() * usize::MAX <= 24 * 0xffff_ffff_ffff_ffff) by (nonlinear_arith)
                    requires
                        next.len() <= 24,
                        usize::MAX <= 0xffff_ffff_ffff_ffff,
                ;
            }
            sum = sum + self.hours[h] as u128;
            h = h + 1;
        }
        assert(self.hours@.take(h as int) =~= self.hours@);
        sum
    }
}

impl Histogram {
    /// The total of each row.
    pub fn totals(&self) -> (sums: Vec<u128>)
        ensures
            sums@ == row_totals(self@),
    {
        let mut sums: Vec<u128> = Vec::new();
        let mut r: usize = 0;
        while r < self.rows.len()
            invariant
                r <= self.rows@.len(),
                sums@.len() == r,
                forall|k: int| 0 <= k < r ==> #[trigger] sums@[k] == total(self.rows@[k].hours@),
            decreases self.rows@.len() - r,
        {
            sums.push(self.rows[r].total());
            r = r + 1;
        }
        assert(sums@ =~= row_totals(self@));
        sums
    }

    /// Each user with the number of the user's logons, in the order of the
    /// rows.
    pub fn user_totals(&self) -> (pairs: Vec<(String, u128)>)
        ensures
            pairs@.len() == self@.len(),
            forall|r: int|
                0 <= r < pairs@.len() ==> (#[trigger] pairs@[r]).0@ == self@[r].user && pairs@[r].1
                    == total(self@[r].hours),
    {
        let mut pairs: Vec<(String, u128)> = Vec::new();
        let mut r: usize = 0;
        while r < self.rows.len()
            invariant
                r <= self.rows@.len(),
                pairs@.len() == r,
                forall|k: int|
                    0 <= k < r ==> (#[trigger] pairs@[k]).0@ == self.rows@[k].user@ && pairs@[k].1
                        == total(self.rows@[k].hours@),
            decreases self.rows@.len() - r,
        {
            pairs.push((self.rows[r].user.clone(), self.rows[r].total()));
            r = r + 1;
        }
        pairs
    }

    /// The rows by falling total; rows of the same total keep their order.
    pub fn ranked(&self) -> (sorted: Histogram)
        ensures
            is_ranking(row_totals(self@), ranking_of(row_totals(self@))),
            sorted@ == arranged(self@, ranking_of(row_totals(self@))),
    {
        let sums = self.totals();
        let order = crate::ranking::ranking(&sums);
        let mut rows: Vec<UserHours> = Vec::new();
        let mut i: usize = 0;
        while i < order.len()
            invariant
                i <= order@.len(),
                order@.len() == self.rows@.len(),
                forall|k: int| 0 <= k < order@.len() ==> 0 <= #[trigger] order@[k] < self.rows@.len(),
                rows@.len() == i,
                forall|k: int| 0 <= k < i ==> (#[trigger] rows@[k])@ == self.rows@[order@[k] as int]@,
            decreases order@.len() - i,
        {
            let row = &self.rows[order[i]];
            rows.push(UserHours { user: row.user.clone(), hours: row.hours });
            i = i + 1;
        }
        let sorted = Histogram { rows };
        assert(sorted@ =~= arranged(self@, order@));
        sorted
    }
}

/// How many of `logons` are of the user `user` and in one of the first `n`
/// hours of the day.
pub open spec fn count_until(logons: Seq<LogonModel>, user: Seq<char>, n: int) -> nat
    decreases n,
{
    if n <= 0 {
        0
    } else {
        count_until(logons, user, n - 1) + count_at(logons, user, n - 1)
    }
}

/// One more logon adds one to the count of its user's hour, and nothing
/// elsewhere.
proof fn lemma_count_until_step(logons: Seq<LogonModel>, user: Seq<char>, n: int)
    requires
        logons.len() > 0,
        0 <= n <= HOURS,
    ensures
        count_until(logons, user, n) == count_until(logons.drop_last(), user, n) + (
        if logons.last().target_user_name == user && (hour_of(logons.last().time_created) matches Some(
            h,
        ) && h < n) {
            1nat
        } else {
            0nat
        }),
    decreases n,
{
    if n > 0 {
        lemma_count_until_step(logons, user, n - 1);
    }
}

/// Where every logon has an hour, the counts of a user's hours add up to
/// the number of the user's logons.
proof fn lemma_count_until_day(logons: Seq<LogonModel>, user: Seq<char>)
    requires
        first_untimed(logons) is None,
    ensures
        count_until(logons, user, HOURS as int) == count_of(logons, user),
    decreases logons.len(),
{
    if logons.len() > 0 {
        lemma_count_until_day(logons.drop_last(), user);
        lemma_count_until_step(logons, user, HOURS as int);
        assert(hour_of(logons.last().time_created) is Some);
        assert(hour_of(logons.last().time_created)->0 < HOURS);
    } else {
        assert(logons =~= Seq::<LogonModel>::empty());
        lemma_count_until_empty(user, HOURS as int);
    }
}

/// Nothing is counted where there is no logon.
proof fn lemma_count_until_empty(user: Seq<char>, n: int)
    ensures
        count_until(Seq::<LogonModel>::empty(), user, n) == 0,
    decreases n,
{
    if n > 0 {
        lemma_count_until_empty(user, n - 1);
    }
}

/// The sum of the first `n` hours of a row is the number of logons in
/// those hours.
proof fn lemma_total_until(hours: Seq<usize>, logons: Seq<LogonModel>, user: Seq<char>, n: int)
    requires
        0 <= n <= hours.len(),
        forall|h: int| 0 <= h < n ==> #[trigger] hours[h] == count_at(logons, user, h),
    ensures
        total(hours.take(n)) == count_until(logons, user, n),
    decreases n,
{
    if n > 0 {
        lemma_total_until(hours, logons, user, n - 1);
        assert(hours.take(n).drop_last() =~= hours.take(n - 1));
        assert(hours.take(n).last() == hours[n - 1]);
    } else {
        assert(hours.take(0) =~= Seq::<usize>::empty());
    }
}

/// The total of a row of a histogram is the number of its user's logons.
pub proof fn lemma_row_total(logons: Seq<LogonModel>, table: Seq<RowModel>, r: int)
    requires
        first_untimed(logons) is None,
        tallies(logons, table),
        0 <= r < table.len(),
    ensures
        total(table[r].hours) == count_of(logons, table[r].user),
{
    let hours = table[r].hours;
    let user = table[r].user;
    assert forall|h: int| 0 <= h < HOURS implies #[trigger] hours[h] == count_at(logons, user, h) by {
        assert(table[r].hours[h] == count_at(logons, users_of(logons)[r], h));
    }
    lemma_total_until(hours, logons, user, HOURS as int);
    assert(hours.take(HOURS as int) =~= hours);
    lemma_count_until_day(logons, user);
}

/// In a ranking of the rows no row has a greater total than a row before
/// it.
pub proof fn lemma_ranked_falls(rows: Seq<RowModel>, i: int, j: int)
    requires
        forall|r: int| 0 <= r < rows.len() ==> (#[trigger] rows[r]).hours.len() == HOURS,
        is_ranking(row_totals(rows), ranking_of(row_totals(rows))),
        0 <= i <= j < rows.len(),
    ensures
        total(arranged(rows, ranking_of(row_totals(rows)))[i].hours) >= total(
            arranged(rows, ranking_of(row_totals(rows)))[j].hours,
        ),
{
    let keys = row_totals(rows);
    let order = ranking_of(keys);
    let a = order[i] as int;
    let b = order[j] as int;
    lemma_total_bounded(rows[a].hours);
    lemma_total_bounded(rows[b].hours);
    assert(24 * usize::MAX <= u128::MAX) by (nonlinear_arith)
        requires
            usize::MAX <= 0xffff_ffff_ffff_ffff,
    ;
    assert(keys[a] == total(rows[a].hours));
    assert(keys[b] == total(rows[b].hours));
    if i < j {
        assert(crate::ranking::comes_before(keys, order[i] as int, order[j] as int));
    }
}

} // verus!
