//! Fleet validation: the rules behind the error codes `E1300` to `E1306`.
use vstd::prelude::*;
use crate::pragmatic::{FormatError, joined, join_strings};

verus! {

/// A closed interval of seconds since the epoch.
#[derive(Clone, Copy, Debug, PartialEq, Eq, Structural)]
pub struct TimeInterval {
    pub start: i64,
    pub end: i64,
}

impl TimeInterval {
    pub open spec fn meets(self, other: TimeInterval) -> bool {
        self.start <= other.end && other.start <= self.end
    }

    pub fn intersects(&self, other: &TimeInterval) -> (r: bool)
        ensures
            r == self.meets(*other),
    {
        self.start <= other.end && other.start <= self.end
    }
}

/// The seconds since the epoch of an RFC 3339 date-time, or none when the text
/// is not one.
pub uninterp spec fn rfc3339_timestamp(s: Seq<char>) -> Option<i64>;

/// Relies on `chrono::DateTime::parse_from_rfc3339` and
/// `chrono::DateTime::timestamp`: the timestamp of an RFC 3339 text.
#[verifier::external_body]
fn parse_time(s: &str) -> (r: Option<i64>)
    ensures
        r == rfc3339_timestamp(s@),
{
    match chrono::DateTime::parse_from_rfc3339(s) {
        Ok(d) => Some(d.timestamp()),
        Err(_) => None,
    }
}

/// Where a place is: a coordinate by the bits of its latitude and longitude,
/// or an index into the routing matrix.
#[derive(Clone, Copy, Debug, PartialEq, Eq, Structural)]
pub enum LocationKey {
    Coordinate { lat_bits: u64, lng_bits: u64 },
    Reference { index: usize },
}

/// A depot or reload place: its location and its time windows.
#[derive(Clone, Debug)]
pub struct CargoPlaceRecord {
    pub location: LocationKey,
    pub times: Option<Vec<Vec<String>>>,
}

/// The time of a break: a window of two RFC 3339 texts, or offsets.
#[derive(Clone, Debug)]
pub enum BreakTimeRecord {
    TimeWindow(Vec<String>),
    TimeOffset,
}

/// What validation reads of a vehicle shift.
#[derive(Clone, Debug)]
pub struct ShiftRecord {
    pub start_earliest: String,
    pub start_location: LocationKey,
    pub end_latest: Option<String>,
    pub depots: Option<Vec<CargoPlaceRecord>>,
    pub breaks: Option<Vec<BreakTimeRecord>>,
    pub reloads: Option<Vec<CargoPlaceRecord>>,
}

/// What validation reads of a vehicle type.
#[derive(Clone, Debug)]
pub struct VehicleRecord {
    pub type_id: String,
    pub vehicle_ids: Vec<String>,
    pub shifts: Vec<ShiftRecord>,
    /// The number of points of each allowed area's outer shape, if areas are set.
    pub allowed_areas: Option<Vec<usize>>,
}

/// The fleet under validation.
#[derive(Clone, Debug)]
pub struct ValidationContext {
    pub vehicles: Vec<VehicleRecord>,
}

/// End of a shift that has none.
pub open spec fn open_shift_end() -> Seq<char> {
    "2200-07-04T00:00:00Z"@
}

/// The window from `start` to `end`, when both parse and are ordered.
pub open spec fn window_of(start: Seq<char>, end: Seq<char>) -> Option<TimeInterval> {
    match (rfc3339_timestamp(start), rfc3339_timestamp(end)) {
        (Some(a), Some(b)) => if a <= b { Some(TimeInterval { start: a, end: b }) } else { None },
        _ => None,
    }
}

/// The window of a pair of texts; none for any other length.
pub open spec fn raw_window(tw: Seq<String>) -> Option<TimeInterval> {
    if tw.len() == 2 { window_of(tw[0]@, tw[1]@) } else { None }
}

/// All windows are valid and, unless `skip_intersection_check`, no two of them meet.
pub open spec fn windows_ok(tws: Seq<Option<TimeInterval>>, skip_intersection_check: bool) -> bool {
    &&& forall|i: int| 0 <= i < tws.len() ==> (#[trigger] tws[i]) is Some
    &&& !skip_intersection_check ==> forall|i: int, j: int| 0 <= i < tws.len() && 0 <= j < tws.len() && i != j
        ==> !(#[trigger] tws[i])->0.meets((#[trigger] tws[j])->0)
}

/// No windows, or valid windows that all meet the shift window when it is known.
pub open spec fn shift_windows_ok(shift: Option<TimeInterval>, tws: Seq<Option<TimeInterval>>, skip_intersection_check: bool) -> bool {
    tws.len() == 0 || (windows_ok(tws, skip_intersection_check)
        && (shift matches Some(st) ==> forall|i: int| 0 <= i < tws.len() ==> (#[trigger] tws[i])->0.meets(st)))
}

/// The window of a shift, from its start to its end or a far date.
pub open spec fn shift_window(sh: ShiftRecord) -> Option<TimeInterval> {
    window_of(sh.start_earliest@, match sh.end_latest { Some(e) => e@, None => open_shift_end() })
}

/// The window of a shift from its start to its end, or to its start when it has none.
pub open spec fn shift_bounds(sh: ShiftRecord) -> Option<TimeInterval> {
    window_of(sh.start_earliest@, match sh.end_latest { Some(e) => e@, None => sh.start_earliest@ })
}

/// The windows of the first `n` places, in order.
pub open spec fn cargo_windows(places: Seq<CargoPlaceRecord>, n: int) -> Seq<Option<TimeInterval>>
    decreases n,
{
    if n <= 0 {
        Seq::empty()
    } else {
        cargo_windows(places, n - 1) + match places[n - 1].times {
            Some(t) => t@.map_values(|tw: Vec<String>| raw_window(tw@)),
            None => Seq::empty(),
        }
    }
}

/// The windows of the first `n` breaks given as windows, in order.
pub open spec fn break_windows(breaks: Seq<BreakTimeRecord>, n: int) -> Seq<Option<TimeInterval>>
    decreases n,
{
    if n <= 0 {
        Seq::empty()
    } else {
        break_windows(breaks, n - 1) + match breaks[n - 1] {
            BreakTimeRecord::TimeWindow(tw) => seq![raw_window(tw@)],
            BreakTimeRecord::TimeOffset => Seq::empty(),
        }
    }
}

pub open spec fn cargo_ok(places: Seq<CargoPlaceRecord>, shift: Option<TimeInterval>) -> bool {
    shift_windows_ok(shift, cargo_windows(places, places.len() as int), true)
}

/// Depots have proper windows and distinct locations other than the start.
pub open spec fn depots_ok(sh: ShiftRecord, depots: Seq<CargoPlaceRecord>) -> bool {
    &&& cargo_ok(depots, shift_window(sh))
    &&& forall|i: int| 0 <= i < depots.len() ==> (#[trigger] depots[i]).location != sh.start_location
    &&& forall|i: int, j: int| 0 <= i < depots.len() && 0 <= j < depots.len() && i != j
        ==> (#[trigger] depots[i]).location != (#[trigger] depots[j]).location
}

/// The fleet rules checked per vehicle.
#[derive(Clone, Copy, Debug, PartialEq, Eq, Structural)]
pub enum VehicleRule {
    ShiftTime,
    Breaks,
    Reloads,
    Areas,
    Depots,
}

pub open spec fn shift_meets_rule(rule: VehicleRule, sh: ShiftRecord) -> bool {
    match rule {
        VehicleRule::Breaks => match sh.breaks {
            Some(bs) => shift_windows_ok(shift_window(sh), break_windows(bs@, bs@.len() as int), false),
            None => true,
        },
        VehicleRule::Reloads => match sh.reloads {
            Some(rs) => cargo_ok(rs@, shift_window(sh)),
            None => true,
        },
        VehicleRule::Depots => match sh.depots {
            Some(ds) => depots_ok(sh, ds@),
            None => true,
        },
        _ => true,
    }
}

/// Whether a vehicle type meets a rule.
pub open spec fn vehicle_meets_rule(rule: VehicleRule, v: VehicleRecord) -> bool {
    match rule {
        VehicleRule::ShiftTime => windows_ok(v.shifts@.map_values(|sh: ShiftRecord| shift_bounds(sh)), false),
        VehicleRule::Areas => match v.allowed_areas {
            Some(areas) => areas@.len() > 0 && forall|a: int| 0 <= a < areas@.len() ==> #[trigger] areas@[a] >= 3,
            None => true,
        },
        _ => forall|s: int| 0 <= s < v.shifts@.len() ==> shift_meets_rule(rule, #[trigger] v.shifts@[s]),
    }
}

/// The type ids of the first `n` vehicles that break the rule, in order.
pub open spec fn invalid_ids(vs: Seq<VehicleRecord>, rule: VehicleRule, n: int) -> Seq<Seq<char>>
    decreases n,
{
    if n <= 0 {
        Seq::empty()
    } else if vehicle_meets_rule(rule, vs[n - 1]) {
        invalid_ids(vs, rule, n - 1)
    } else {
        invalid_ids(vs, rule, n - 1).push(vs[n - 1].type_id@)
    }
}

/// Each id that occurs again among the first `n`, once, in the order of its
/// second occurrence.
pub open spec fn duplicates(ids: Seq<Seq<char>>, n: int) -> Seq<Seq<char>>
    decreases n,
{
    if n <= 0 {
        Seq::empty()
    } else if ids.take(n - 1).contains(ids[n - 1]) && !duplicates(ids, n - 1).contains(ids[n - 1]) {
        duplicates(ids, n - 1).push(ids[n - 1])
    } else {
        duplicates(ids, n - 1)
    }
}

/// The concrete vehicle ids of the first `n` vehicle types, in order.
pub open spec fn all_vehicle_ids(vs: Seq<VehicleRecord>, n: int) -> Seq<Seq<char>>
    decreases n,
{
    if n <= 0 {
        Seq::empty()
    } else {
        all_vehicle_ids(vs, n - 1) + vs[n - 1].vehicle_ids@.map_values(|s: String| s@)
    }
}

} // verus!

verus! {

/// The window from `start` to `end`, when both parse and are ordered.
pub fn get_time_window(start: &str, end: &str) -> (r: Option<TimeInterval>)
    ensures
        r == window_of(start@, end@),
{
    match (parse_time(start), parse_time(end)) {
        (Some(a), Some(b)) => if a <= b { Some(TimeInterval { start: a, end: b }) } else { None },
        _ => None,
    }
}

fn get_raw_window(tw: &Vec<String>) -> (r: Option<TimeInterval>)
    ensures
        r == raw_window(tw@),
{
    if tw.len() == 2 {
        get_time_window(tw[0].as_str(), tw[1].as_str())
    } else {
        None
    }
}

/// The window of each pair of texts.
pub fn get_time_windows(tws: &Vec<Vec<String>>) -> (r: Vec<Option<TimeInterval>>)
    ensures
        r@ == tws@.map_values(|tw: Vec<String>| raw_window(tw@)),
{
    let mut r: Vec<Option<TimeInterval>> = Vec::new();
    let mut i: usize = 0;
    while i < tws.len()
        invariant
            i <= tws@.len(),
            r@ == tws@.take(i as int).map_values(|tw: Vec<String>| raw_window(tw@)),
        decreases tws@.len() - i,
    {
        r.push(get_raw_window(&tws[i]));
        assert(r@ =~= tws@.take(i + 1).map_values(|tw: Vec<String>| raw_window(tw@)));
        i = i + 1;
    }
    assert(tws@.take(tws@.len() as int) =~= tws@);
    r
}

/// All windows are valid and, unless `skip_intersection_check`, pairwise apart.
pub fn check_time_windows(tws: &Vec<Option<TimeInterval>>, skip_intersection_check: bool) -> (r: bool)
    ensures
        r == windows_ok(tws@, skip_intersection_check),
{
    let mut i: usize = 0;
    while i < tws.len()
        invariant
            i <= tws@.len(),
            forall|p: int| 0 <= p < i ==> (#[trigger] tws@[p]) is Some,
        decreases tws@.len() - i,
    {
        if tws[i].is_none() {
            return false;
        }
        i = i + 1;
    }
    if skip_intersection_check {
        return true;
    }
    let mut i: usize = 0;
    while i < tws.len()
        invariant
            !skip_intersection_check,
            i <= tws@.len(),
            forall|p: int| 0 <= p < tws@.len() ==> (#[trigger] tws@[p]) is Some,
            forall|p: int, q: int| 0 <= p < i && 0 <= q < tws@.len() && p != q
                ==> !(#[trigger] tws@[p])->0.meets((#[trigger] tws@[q])->0),
        decreases tws@.len() - i,
    {
        let a = tws[i].unwrap();
        let mut j: usize = 0;
        while j < tws.len()
            invariant
                !skip_intersection_check,
                i < tws@.len(),
                j <= tws@.len(),
                a == tws@[i as int]->0,
                forall|p: int| 0 <= p < tws@.len() ==> (#[trigger] tws@[p]) is Some,
                forall|p: int, q: int| 0 <= p < i && 0 <= q < tws@.len() && p != q
                    ==> !(#[trigger] tws@[p])->0.meets((#[trigger] tws@[q])->0),
                forall|q: int| 0 <= q < j && q != i ==> !a.meets((#[trigger] tws@[q])->0),
            decreases tws@.len() - j,
        {
            if j != i {
                let b = tws[j].unwrap();
                if a.intersects(&b) {
                    proof {
                        let p = i as int;
                        let q = j as int;
                        assert(tws@[p]->0.meets(tws@[q]->0));
                        assert(!windows_ok(tws@, skip_intersection_check));
                    }
                    return false;
                }
            }
            j = j + 1;
        }
        i = i + 1;
    }
    true
}

/// No windows, or valid windows that all meet the shift window when it is known.
pub fn check_shift_time_windows(shift_time: Option<TimeInterval>, tws: &Vec<Option<TimeInterval>>, skip_intersection_check: bool) -> (r: bool)
    ensures
        r == shift_windows_ok(shift_time, tws@, skip_intersection_check),
{
    if tws.len() == 0 {
        return true;
    }
    if !check_time_windows(tws, skip_intersection_check) {
        return false;
    }
    match shift_time {
        Some(st) => {
            let mut i: usize = 0;
            while i < tws.len()
                invariant
                    i <= tws@.len(),
                    tws@.len() > 0,
                    shift_time == Some(st),
                    windows_ok(tws@, skip_intersection_check),
                    forall|p: int| 0 <= p < i ==> (#[trigger] tws@[p])->0.meets(st),
                decreases tws@.len() - i,
            {
                let w = tws[i].unwrap();
                if !w.intersects(&st) {
                    proof {
                        assert(!tws@[i as int]->0.meets(st));
                        assert(!shift_windows_ok(shift_time, tws@, skip_intersection_check));
                    }
                    return false;
                }
                i = i + 1;
            }
            true
        },
        None => true,
    }
}

/// The window of a shift, from its start to its end or a far date.
pub fn get_shift_time_window(sh: &ShiftRecord) -> (r: Option<TimeInterval>)
    ensures
        r == shift_window(*sh),
{
    match &sh.end_latest {
        Some(e) => get_time_window(sh.start_earliest.as_str(), e.as_str()),
        None => get_time_window(sh.start_earliest.as_str(), "2200-07-04T00:00:00Z"),
    }
}

fn get_shift_bounds(sh: &ShiftRecord) -> (r: Option<TimeInterval>)
    ensures
        r == shift_bounds(*sh),
{
    match &sh.end_latest {
        Some(e) => get_time_window(sh.start_earliest.as_str(), e.as_str()),
        None => get_time_window(sh.start_earliest.as_str(), sh.start_earliest.as_str()),
    }
}

fn get_cargo_windows(places: &Vec<CargoPlaceRecord>) -> (r: Vec<Option<TimeInterval>>)
    ensures
        r@ == cargo_windows(places@, places@.len() as int),
{
    let mut r: Vec<Option<TimeInterval>> = Vec::new();
    let mut i: usize = 0;
    while i < places.len()
        invariant
            i <= places@.len(),
            r@ == cargo_windows(places@, i as int),
        decreases places@.len() - i,
    {
        match &places[i].times {
            Some(t) => {
                let w = get_time_windows(t);
                let ghost before = r@;
                let mut k: usize = 0;
                while k < w.len()
                    invariant
                        k <= w@.len(),
                        r@ == before + w@.take(k as int),
                    decreases w@.len() - k,
                {
                    r.push(w[k]);
                    assert(r@ =~= before + w@.take(k + 1));
                    k = k + 1;
                }
                assert(w@.take(w@.len() as int) =~= w@);
            },
            None => {
                assert(cargo_windows(places@, i + 1) =~= cargo_windows(places@, i as int));
            },
        }
        i = i + 1;
    }
    r
}

fn get_break_windows(breaks: &Vec<BreakTimeRecord>) -> (r: Vec<Option<TimeInterval>>)
    ensures
        r@ == break_windows(breaks@, breaks@.len() as int),
{
    let mut r: Vec<Option<TimeInterval>> = Vec::new();
    let mut i: usize = 0;
    while i < breaks.len()
        invariant
            i <= breaks@.len(),
            r@ == break_windows(breaks@, i as int),
        decreases breaks@.len() - i,
    {
        match &breaks[i] {
            BreakTimeRecord::TimeWindow(tw) => {
                let w = get_raw_window(tw);
                r.push(w);
                assert(r@ =~= break_windows(breaks@, i + 1));
            },
            BreakTimeRecord::TimeOffset => {
                assert(break_windows(breaks@, i + 1) =~= break_windows(breaks@, i as int));
            },
        }
        i = i + 1;
    }
    r
}

/// The windows of the places are valid and meet the shift.
pub fn check_cargo_place_time_windows(places: &Vec<CargoPlaceRecord>, shift_time: Option<TimeInterval>) -> (r: bool)
    ensures
        r == cargo_ok(places@, shift_time),
{
    let tws = get_cargo_windows(places);
    check_shift_time_windows(shift_time, &tws, true)
}

fn check_depots(sh: &ShiftRecord, depots: &Vec<CargoPlaceRecord>) -> (r: bool)
    ensures
        r == depots_ok(*sh, depots@),
{
    let st = get_shift_time_window(sh);
    if !check_cargo_place_time_windows(depots, st) {
        return false;
    }
    let mut i: usize = 0;
    while i < depots.len()
        invariant
            i <= depots@.len(),
            forall|p: int| 0 <= p < i ==> (#[trigger] depots@[p]).location != sh.start_location,
            forall|p: int, q: int| 0 <= p < i && 0 <= q < depots@.len() && p != q
                ==> (#[trigger] depots@[p]).location != (#[trigger] depots@[q]).location,
        decreases depots@.len() - i,
    {
        if depots[i].location == sh.start_location {
            return false;
        }
        let mut j: usize = 0;
        while j < depots.len()
            invariant
                i < depots@.len(),
                j <= depots@.len(),
                forall|p: int| 0 <= p < i ==> (#[trigger] depots@[p]).location != sh.start_location,
                depots@[i as int].location != sh.start_location,
                forall|p: int, q: int| 0 <= p < i && 0 <= q < depots@.len() && p != q
                    ==> (#[trigger] depots@[p]).location != (#[trigger] depots@[q]).location,
                forall|q: int| 0 <= q < j && q != i ==> depots@[i as int].location != (#[trigger] depots@[q]).location,
            decreases depots@.len() - j,
        {
            if j != i && depots[i].location == depots[j].location {
                return false;
            }
            j = j + 1;
        }
        i = i + 1;
    }
    true
}

fn shift_meets(rule: VehicleRule, sh: &ShiftRecord) -> (r: bool)
    ensures
        r == shift_meets_rule(rule, *sh),
{
    match rule {
        VehicleRule::Breaks => match &sh.breaks {
            Some(bs) => {
                let st = get_shift_time_window(sh);
                let tws = get_break_windows(bs);
                check_shift_time_windows(st, &tws, false)
            },
            None => true,
        },
        VehicleRule::Reloads => match &sh.reloads {
            Some(rs) => {
                let st = get_shift_time_window(sh);
                check_cargo_place_time_windows(rs, st)
            },
            None => true,
        },
        VehicleRule::Depots => match &sh.depots {
            Some(ds) => check_depots(sh, ds),
            None => true,
        },
        _ => true,
    }
}

/// Whether the vehicle type meets the rule.
pub fn vehicle_meets(rule: VehicleRule, v: &VehicleRecord) -> (r: bool)
    ensures
        r == vehicle_meets_rule(rule, *v),
{
    match rule {
        VehicleRule::ShiftTime => {
            let mut tws: Vec<Option<TimeInterval>> = Vec::new();
            let mut s: usize = 0;
            while s < v.shifts.len()
                invariant
                    s <= v.shifts@.len(),
                    tws@ == v.shifts@.take(s as int).map_values(|sh: ShiftRecord| shift_bounds(sh)),
                decreases v.shifts@.len() - s,
            {
                tws.push(get_shift_bounds(&v.shifts[s]));
                assert(tws@ =~= v.shifts@.take(s + 1).map_values(|sh: ShiftRecord| shift_bounds(sh)));
                s = s + 1;
            }
            assert(v.shifts@.take(v.shifts@.len() as int) =~= v.shifts@);
            check_time_windows(&tws, false)
        },
        VehicleRule::Areas => match &v.allowed_areas {
            Some(areas) => {
                if areas.len() == 0 {
                    return false;
                }
                let mut a: usize = 0;
                while a < areas.len()
                    invariant
                        rule == VehicleRule::Areas,
                        v.allowed_areas == Some(*areas),
                        areas@.len() > 0,
                        a <= areas@.len(),
                        forall|q: int| 0 <= q < a ==> #[trigger] areas@[q] >= 3,
                    decreases areas@.len() - a,
                {
                    if areas[a] < 3 {
                        assert(areas@[a as int] < 3);
                        return false;
                    }
                    a = a + 1;
                }
                true
            },
            None => true,
        },
        _ => {
            let mut s: usize = 0;
            while s < v.shifts.len()
                invariant
                    s <= v.shifts@.len(),
                    rule != VehicleRule::ShiftTime && rule != VehicleRule::Areas,
                    forall|q: int| 0 <= q < s ==> shift_meets_rule(rule, #[trigger] v.shifts@[q]),
                decreases v.shifts@.len() - s,
            {
                if !shift_meets(rule, &v.shifts[s]) {
                    return false;
                }
                s = s + 1;
            }
            true
        },
    }
}

/// The type ids of the vehicles that break the rule, in order.
pub fn get_invalid_type_ids(ctx: &ValidationContext, rule: VehicleRule) -> (r: Vec<String>)
    ensures
        r@.map_values(|s: String| s@) == invalid_ids(ctx.vehicles@, rule, ctx.vehicles@.len() as int),
{
    let mut r: Vec<String> = Vec::new();
    let mut i: usize = 0;
    while i < ctx.vehicles.len()
        invariant
            i <= ctx.vehicles@.len(),
            r@.map_values(|s: String| s@) == invalid_ids(ctx.vehicles@, rule, i as int),
        decreases ctx.vehicles@.len() - i,
    {
        if !vehicle_meets(rule, &ctx.vehicles[i]) {
            r.push(ctx.vehicles[i].type_id.clone());
            assert(r@.map_values(|s: String| s@) =~= invalid_ids(ctx.vehicles@, rule, i + 1));
        }
        i = i + 1;
    }
    r
}

} // verus!

verus! {

pub open spec fn views(v: Seq<String>) -> Seq<Seq<char>> {
    v.map_values(|s: String| s@)
}

proof fn lemma_views_push(v: Seq<String>, x: String)
    ensures
        views(v.push(x)) == views(v).push(x@),
{
    assert(views(v.push(x)) =~= views(v).push(x@));
}

fn contains_string(v: &Vec<String>, n: usize, x: &String) -> (r: bool)
    requires
        n <= v@.len(),
    ensures
        r == views(v@).take(n as int).contains(x@),
{
    let mut k: usize = 0;
    while k < n
        invariant
            n <= v@.len(),
            k <= n,
            forall|q: int| 0 <= q < k ==> (#[trigger] v@[q])@ != x@,
        decreases n - k,
    {
        if v[k].eq(x) {
            assert(views(v@).take(n as int)[k as int] == x@);
            return true;
        }
        k = k + 1;
    }
    proof {
        if views(v@).take(n as int).contains(x@) {
            let q = choose|q: int| 0 <= q < n && views(v@).take(n as int)[q] == x@;
            assert(v@[q]@ == x@);
        }
    }
    false
}

/// Each id that occurs more than once, once, in the order of its second occurrence.
pub fn get_duplicates(ids: &Vec<String>) -> (r: Vec<String>)
    ensures
        views(r@) == duplicates(views(ids@), ids@.len() as int),
{
    let ghost vs = views(ids@);
    let mut r: Vec<String> = Vec::new();
    let mut i: usize = 0;
    while i < ids.len()
        invariant
            vs == views(ids@),
            i <= ids@.len(),
            views(r@) == duplicates(vs, i as int),
        decreases ids@.len() - i,
    {
        let seen_before = contains_string(ids, i, &ids[i]);
        let listed = contains_string(&r, r.len(), &ids[i]);
        proof {
            assert(views(r@).take(r@.len() as int) =~= views(r@));
            assert(vs.take(i as int) =~= views(ids@).take(i as int));
        }
        if seen_before && !listed {
            let ghost pre = r@;
            let c = ids[i].clone();
            r.push(c);
            proof {
                lemma_views_push(pre, c);
            }
        }
        i = i + 1;
    }
    r
}

fn get_all_vehicle_ids(ctx: &ValidationContext) -> (r: Vec<String>)
    ensures
        views(r@) == all_vehicle_ids(ctx.vehicles@, ctx.vehicles@.len() as int),
{
    let mut r: Vec<String> = Vec::new();
    let mut i: usize = 0;
    while i < ctx.vehicles.len()
        invariant
            i <= ctx.vehicles@.len(),
            views(r@) == all_vehicle_ids(ctx.vehicles@, i as int),
        decreases ctx.vehicles@.len() - i,
    {
        let ids = &ctx.vehicles[i].vehicle_ids;
        let ghost before = views(r@);
        let mut k: usize = 0;
        while k < ids.len()
            invariant
                k <= ids@.len(),
                views(r@) == before + views(ids@).take(k as int),
            decreases ids@.len() - k,
        {
            let ghost pre = r@;
            let c = ids[k].clone();
            r.push(c);
            proof {
                lemma_views_push(pre, c);
                assert(views(ids@).take(k + 1) =~= views(ids@).take(k as int).push(ids@[k as int]@));
                assert(views(r@) =~= before + views(ids@).take(k + 1));
            }
            k = k + 1;
        }
        assert(views(ids@).take(ids@.len() as int) =~= views(ids@));
        i = i + 1;
    }
    r
}

/// `r` reports the listed ids under the given code and texts, or is `Ok` when
/// none is listed.
pub open spec fn reports(r: Result<(), FormatError>, ids: Seq<Seq<char>>, code: Seq<char>, cause: Seq<char>, prefix: Seq<char>, suffix: Seq<char>) -> bool {
    if ids.len() == 0 {
        r is Ok
    } else {
        r matches Err(e) && e.code@ == code && e.cause@ == cause
            && e.action@ == prefix + joined(ids, ", "@) + suffix && e.details is None
    }
}

fn report(ids: &Vec<String>, code: &str, cause: &str, prefix: &str, suffix: &str) -> (r: Result<(), FormatError>)
    ensures
        reports(r, views(ids@), code@, cause@, prefix@, suffix@),
{
    if ids.len() == 0 {
        return Ok(());
    }
    let list = join_strings(ids, ", ");
    let mut action = String::from_str(prefix);
    action.append(list.as_str());
    action.append(suffix);
    Err(FormatError::new(String::from_str(code), String::from_str(cause), action))
}

/// Checks that the fleet has no vehicle types with duplicate type ids.
pub fn check_e1300_no_vehicle_types_with_duplicate_type_ids(ctx: &ValidationContext) -> (r: Result<(), FormatError>)
    ensures
        reports(r, duplicates(ctx.vehicles@.map_values(|v: VehicleRecord| v.type_id@), ctx.vehicles@.len() as int),
            "E1300"@, "duplicated vehicle type ids"@, "remove duplicated vehicle type ids: "@, ""@),
{
    let mut ids: Vec<String> = Vec::new();
    let mut i: usize = 0;
    while i < ctx.vehicles.len()
        invariant
            i <= ctx.vehicles@.len(),
            views(ids@) == ctx.vehicles@.take(i as int).map_values(|v: VehicleRecord| v.type_id@),
        decreases ctx.vehicles@.len() - i,
    {
        let ghost pre = ids@;
        let c = ctx.vehicles[i].type_id.clone();
        ids.push(c);
        proof {
            lemma_views_push(pre, c);
            assert(ctx.vehicles@.take(i + 1).map_values(|v: VehicleRecord| v.type_id@)
                =~= ctx.vehicles@.take(i as int).map_values(|v: VehicleRecord| v.type_id@).push(c@));
        }
        i = i + 1;
    }
    assert(ctx.vehicles@.take(ctx.vehicles@.len() as int) =~= ctx.vehicles@);
    let dups = get_duplicates(&ids);
    report(&dups, "E1300", "duplicated vehicle type ids", "remove duplicated vehicle type ids: ", "")
}

/// Checks that the fleet has no duplicate vehicle ids.
pub fn check_e1301_no_vehicle_types_with_duplicate_ids(ctx: &ValidationContext) -> (r: Result<(), FormatError>)
    ensures
        reports(r, duplicates(all_vehicle_ids(ctx.vehicles@, ctx.vehicles@.len() as int),
            all_vehicle_ids(ctx.vehicles@, ctx.vehicles@.len() as int).len() as int),
            "E1301"@, "duplicated vehicle ids"@, "remove duplicated vehicle ids: "@, ""@),
{
    let ids = get_all_vehicle_ids(ctx);
    let dups = get_duplicates(&ids);
    report(&dups, "E1301", "duplicated vehicle ids", "remove duplicated vehicle ids: ", "")
}

/// Checks that the start and end times of the shifts are valid and that the
/// shifts of a vehicle type do not overlap.
pub fn check_e1302_vehicle_shift_time(ctx: &ValidationContext) -> (r: Result<(), FormatError>)
    ensures
        reports(r, invalid_ids(ctx.vehicles@, VehicleRule::ShiftTime, ctx.vehicles@.len() as int),
            "E1302"@, "invalid start or end times in vehicle shift"@,
            "ensure that start and end time conform shift time rules, vehicle type ids: "@, ""@),
{
    let ids = get_invalid_type_ids(ctx, VehicleRule::ShiftTime);
    report(&ids, "E1302", "invalid start or end times in vehicle shift",
        "ensure that start and end time conform shift time rules, vehicle type ids: ", "")
}

/// Checks that break time windows are valid, apart, and within the shift.
pub fn check_e1303_vehicle_breaks_time_is_correct(ctx: &ValidationContext) -> (r: Result<(), FormatError>)
    ensures
        reports(r, invalid_ids(ctx.vehicles@, VehicleRule::Breaks, ctx.vehicles@.len() as int),
            "E1303"@, "invalid break time windows in vehicle shift"@,
            "ensure that break conform rules, vehicle type ids: '"@, "'"@),
{
    let ids = get_invalid_type_ids(ctx, VehicleRule::Breaks);
    report(&ids, "E1303", "invalid break time windows in vehicle shift",
        "ensure that break conform rules, vehicle type ids: '", "'")
}

/// Checks that reload time windows are valid and within the shift.
pub fn check_e1304_vehicle_reload_time_is_correct(ctx: &ValidationContext) -> (r: Result<(), FormatError>)
    ensures
        reports(r, invalid_ids(ctx.vehicles@, VehicleRule::Reloads, ctx.vehicles@.len() as int),
            "E1304"@, "invalid reload time windows in vehicle shift"@,
            "ensure that reload conform rules, vehicle type ids: '"@, "'"@),
{
    let ids = get_invalid_type_ids(ctx, VehicleRule::Reloads);
    report(&ids, "E1304", "invalid reload time windows in vehicle shift",
        "ensure that reload conform rules, vehicle type ids: '", "'")
}

/// Checks that allowed areas are non-empty lists of shapes of three points or more.
pub fn check_e1305_vehicle_limit_area_is_correct(ctx: &ValidationContext) -> (r: Result<(), FormatError>)
    ensures
        reports(r, invalid_ids(ctx.vehicles@, VehicleRule::Areas, ctx.vehicles@.len() as int),
            "E1305"@, "invalid allowed area definition in vehicle limits"@,
            "ensure that areas list is not empty and each area has at least three coordinates, vehicle type ids: '"@, "'"@),
{
    let ids = get_invalid_type_ids(ctx, VehicleRule::Areas);
    report(&ids, "E1305", "invalid allowed area definition in vehicle limits",
        "ensure that areas list is not empty and each area has at least three coordinates, vehicle type ids: '", "'")
}

/// Checks that depots have proper time windows and unique locations other
/// than the shift start.
pub fn check_e1306_vehicle_depot_is_correct(ctx: &ValidationContext) -> (r: Result<(), FormatError>)
    ensures
        reports(r, invalid_ids(ctx.vehicles@, VehicleRule::Depots, ctx.vehicles@.len() as int),
            "E1306"@, "invalid depots in vehicle shift"@,
            "ensure that all depots have proper time windows and unique locations different from start location. Vehicle type ids: '"@, "'"@),
{
    let ids = get_invalid_type_ids(ctx, VehicleRule::Depots);
    report(&ids, "E1306", "invalid depots in vehicle shift",
        "ensure that all depots have proper time windows and unique locations different from start location. Vehicle type ids: '", "'")
}

/// The errors among the first `n` results, in order.
pub open spec fn errors_of(rs: Seq<Result<(), FormatError>>, n: int) -> Seq<FormatError>
    decreases n,
{
    if n <= 0 {
        Seq::empty()
    } else {
        match rs[n - 1] {
            Ok(_) => errors_of(rs, n - 1),
            Err(e) => errors_of(rs, n - 1).push(e),
        }
    }
}

/// `Ok` when every result is, else all their errors in order.
pub fn combine_error_results(results: Vec<Result<(), FormatError>>) -> (r: Result<(), Vec<FormatError>>)
    ensures
        errors_of(results@, results@.len() as int).len() == 0 ==> r is Ok,
        errors_of(results@, results@.len() as int).len() > 0
            ==> (r matches Err(v) && v@ == errors_of(results@, results@.len() as int)),
{
    let ghost rs = results@;
    let mut errors: Vec<FormatError> = Vec::new();
    let mut results = results;
    let total = results.len();
    let mut i: usize = 0;
    while results.len() > 0
        invariant
            rs.len() == total,
            i <= rs.len(),
            results@ == rs.subrange(i as int, rs.len() as int),
            errors@ == errors_of(rs, i as int),
        decreases results@.len(),
    {
        let x = results.remove(0);
        proof {
            assert(x == rs[i as int]);
            assert(results@ =~= rs.subrange(i + 1, rs.len() as int));
        }
        match x {
            Ok(_) => {},
            Err(e) => {
                errors.push(e);
            },
        }
        i = i + 1;
    }
    if errors.len() == 0 {
        Ok(())
    } else {
        Err(errors)
    }
}

/// Runs the fleet checks in code order and collects their errors.
pub fn validate_vehicles(ctx: &ValidationContext) -> (r: Result<(), Vec<FormatError>>)
    ensures
        exists|rs: Seq<Result<(), FormatError>>| {
            &&& rs.len() == 7
            &&& reports(rs[0], duplicates(ctx.vehicles@.map_values(|v: VehicleRecord| v.type_id@), ctx.vehicles@.len() as int),
                "E1300"@, "duplicated vehicle type ids"@, "remove duplicated vehicle type ids: "@, ""@)
            &&& reports(rs[1], duplicates(all_vehicle_ids(ctx.vehicles@, ctx.vehicles@.len() as int),
                all_vehicle_ids(ctx.vehicles@, ctx.vehicles@.len() as int).len() as int),
                "E1301"@, "duplicated vehicle ids"@, "remove duplicated vehicle ids: "@, ""@)
            &&& reports(rs[2], invalid_ids(ctx.vehicles@, VehicleRule::ShiftTime, ctx.vehicles@.len() as int),
                "E1302"@, "invalid start or end times in vehicle shift"@,
                "ensure that start and end time conform shift time rules, vehicle type ids: "@, ""@)
            &&& reports(rs[3], invalid_ids(ctx.vehicles@, VehicleRule::Breaks, ctx.vehicles@.len() as int),
                "E1303"@, "invalid break time windows in vehicle shift"@,
                "ensure that break conform rules, vehicle type ids: '"@, "'"@)
            &&& reports(rs[4], invalid_ids(ctx.vehicles@, VehicleRule::Reloads, ctx.vehicles@.len() as int),
                "E1304"@, "invalid reload time windows in vehicle shift"@,
                "ensure that reload conform rules, vehicle type ids: '"@, "'"@)
            &&& reports(rs[5], invalid_ids(ctx.vehicles@, VehicleRule::Areas, ctx.vehicles@.len() as int),
                "E1305"@, "invalid allowed area definition in vehicle limits"@,
                "ensure that areas list is not empty and each area has at least three coordinates, vehicle type ids: '"@, "'"@)
            &&& reports(rs[6], invalid_ids(ctx.vehicles@, VehicleRule::Depots, ctx.vehicles@.len() as int),
                "E1306"@, "invalid depots in vehicle shift"@,
                "ensure that all depots have proper time windows and unique locations different from start location. Vehicle type ids: '"@, "'"@)
            &&& (errors_of(rs, 7).len() == 0 ==> r is Ok)
            &&& (errors_of(rs, 7).len() > 0 ==> (r matches Err(v) && v@ == errors_of(rs, 7)))
        },
{
    let mut results: Vec<Result<(), FormatError>> = Vec::new();
    results.push(check_e1300_no_vehicle_types_with_duplicate_type_ids(ctx));
    results.push(check_e1301_no_vehicle_types_with_duplicate_ids(ctx));
    results.push(check_e1302_vehicle_shift_time(ctx));
    results.push(check_e1303_vehicle_breaks_time_is_correct(ctx));
    results.push(check_e1304_vehicle_reload_time_is_correct(ctx));
    results.push(check_e1305_vehicle_limit_area_is_correct(ctx));
    results.push(check_e1306_vehicle_depot_is_correct(ctx));
    let ghost rs = results@;
    let r = combine_error_results(results);
    assert(rs.len() == 7);
    r
}

} // verus!
