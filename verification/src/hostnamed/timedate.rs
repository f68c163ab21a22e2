//! The time zone and the clocks.

use crate::bus::BusError;
use crate::text::scan::{
    contains, has_part, has_prefix, is_white, starts_with, stripped, trim,
    white_space_around_is_taken_off,
};
use crate::text::{cat, cat3, chars_of, owned, string_of};
use vstd::prelude::*;
use vstd::slice::slice_subrange;

verus! {

/// Where the time zones are.
pub const ZONEINFO: &'static str = "/usr/share/zoneinfo/";

/// The file of a time zone.
pub fn zone_path(timezone: &str) -> (r: String)
    ensures
        r@ == ZONEINFO@ + timezone@,
{
    cat(ZONEINFO, timezone)
}

/// What a change of the time zone writes: where the link leads, and what the
/// file beside it holds.
#[derive(Debug)]
pub struct ZoneChange {
    pub target: String,
    pub file: String,
}

/// The time zone, by the link and by the file.
pub open spec fn zone_named(link: Option<&str>, file: Option<&str>) -> Seq<char> {
    match link {
        Some(l) if has_prefix(l@, ZONEINFO@) => l@.skip(ZONEINFO@.len() as int),
        _ => match file {
            Some(f) => stripped(f@),
            None => "UTC"@,
        },
    }
}

/// The time zone that was set is the one that is told.
pub proof fn set_timezone_is_told(zone: Seq<char>, link: &str, file: Option<&str>)
    requires
        link@ == ZONEINFO@ + zone,
    ensures
        zone_named(Some(link), file) == zone,
{
    let base = ZONEINFO@;
    assert(link@.take(base.len() as int) =~= base);
    assert(link@.skip(base.len() as int) =~= zone);
}

/// What the file about the hardware clock holds.
pub open spec fn adjtime_text(local_rtc: bool) -> Seq<char> {
    if local_rtc {
        "0.0 0 0.0\n0\nLOCAL\n"@
    } else {
        "0.0 0 0.0\n0\nUTC\n"@
    }
}

/// The mode of the hardware clock that was set is the one that is told.
pub proof fn set_rtc_is_told(local: bool)
    ensures
        has_part(adjtime_text(local), "LOCAL"@) == local,
{
    reveal_strlit("0.0 0 0.0\n0\nLOCAL\n");
    reveal_strlit("0.0 0 0.0\n0\nUTC\n");
    reveal_strlit("LOCAL");
    let t = adjtime_text(local);
    let l = "LOCAL"@;
    if local {
        assert(t.skip(12).take(5) =~= l);
        assert(has_prefix(t.skip(12), l));
    } else {
        assert forall|i: int| 0 <= i <= t.len() implies !has_prefix(#[trigger] t.skip(i), l) by {
            if has_prefix(t.skip(i), l) {
                assert(t.skip(i).take(5)[0] == t[i]);
                assert(t[i] == 'L');
            }
        }
    }
}

/// The parts of a time since the epoch: seconds and microseconds, both with
/// the sign of the time.
pub open spec fn time_parts(usec: int) -> (int, int) {
    if usec >= 0 {
        (usec / 1_000_000, usec % 1_000_000)
    } else {
        (-((-usec) / 1_000_000), -((-usec) % 1_000_000))
    }
}

/// The parts of a time make it up.
pub proof fn time_parts_add_up(usec: int)
    ensures
        time_parts(usec).0 * 1_000_000 + time_parts(usec).1 == usec,
        -1_000_000 < time_parts(usec).1 < 1_000_000,
{
}

/// Whether a name tells of a program that keeps the time.
pub open spec fn is_time_keeper(name: Seq<char>) -> bool {
    has_part(name, "ntpd"@) || has_part(name, "chrony"@) || has_part(name, "timesyncd"@)
}

/// What is told and set about the time.
#[derive(Debug, Clone, Copy)]
pub struct TimedateService;

impl TimedateService {
    /// A change of the time zone, to one that has a file.
    pub fn set_timezone(&self, timezone: &str, exists_already: bool) -> (r: Result<ZoneChange, BusError>)
        ensures
            zone_changed(timezone@, exists_already, r),
    {
        if exists_already {
            Ok(ZoneChange { target: zone_path(timezone), file: cat(timezone, "\n") })
        } else {
            Err(BusError::InvalidArgs(cat3("timezone '", timezone, "' not found")))
        }
    }

    /// What the file about the hardware clock holds.
    pub fn set_local_rtc(&self, local_rtc: bool) -> (r: &'static str)
        ensures
            r@ == adjtime_text(local_rtc),
    {
        if local_rtc {
            "0.0 0 0.0\n0\nLOCAL\n"
        } else {
            "0.0 0 0.0\n0\nUTC\n"
        }
    }

    /// The parts of a time since the epoch.
    pub fn set_time(&self, usec_utc: i64) -> (r: (i64, i64))
        ensures
            (r.0 as int, r.1 as int) == time_parts(usec_utc as int),
    {
        if usec_utc >= 0 {
            (usec_utc / 1_000_000, usec_utc % 1_000_000)
        } else {
            let n: i128 = -(usec_utc as i128);
            ((-(n / 1_000_000)) as i64, (-(n % 1_000_000)) as i64)
        }
    }

    /// The time zone: where the link leads below the place of time zones, else
    /// what the file tells.
    pub fn timezone(&self, link: Option<&str>, file: Option<&str>) -> (r: String)
        ensures
            r@ == zone_named(link, file),
    {
        if let Some(l) = link {
            let c = chars_of(l);
            let base = chars_of(ZONEINFO);
            if starts_with(&c, &base) {
                let rest = slice_subrange(c.as_slice(), base.len(), c.len());
                assert(rest@ =~= l@.skip(ZONEINFO@.len() as int));
                return string_of(rest);
            }
        }
        match file {
            Some(f) => {
                let c = chars_of(f);
                string_of(trim(&c))
            },
            None => owned("UTC"),
        }
    }

    /// Whether the hardware clock is on local time, by its file.
    pub fn local_rtc(&self, content: Option<&str>) -> (r: bool)
        ensures
            clock_told(content, r),
    {
        match content {
            Some(c) => {
                let t = chars_of(c);
                let l = chars_of("LOCAL");
                contains(&t, &l)
            },
            None => false,
        }
    }

    /// Whether one of the names tells of a program that keeps the time.
    pub fn ntp(&self, names: &Vec<String>) -> (r: bool)
        ensures
            keeper_told(names@, r),
    {
        let ntpd = chars_of("ntpd");
        let chrony = chars_of("chrony");
        let timesyncd = chars_of("timesyncd");
        let mut i: usize = 0;
        while i < names.len()
            invariant
                i <= names.len(),
                ntpd@ == "ntpd"@,
                chrony@ == "chrony"@,
                timesyncd@ == "timesyncd"@,
                forall|k: int| 0 <= k < i ==> !is_time_keeper((#[trigger] names@[k])@),
            decreases names.len() - i,
        {
            let c = chars_of(names[i].as_str());
            if contains(&c, &ntpd) || contains(&c, &chrony) || contains(&c, &timesyncd) {
                return true;
            }
            i += 1;
        }
        false
    }
}

/// What a request for a time zone is answered.
pub open spec fn zone_changed(
    zone: Seq<char>,
    exists_already: bool,
    r: Result<ZoneChange, BusError>,
) -> bool {
    match r {
        Ok(c) => {
            &&& exists_already
            &&& c.target@ == ZONEINFO@ + zone
            &&& c.file@ == zone + "\n"@
        },
        Err(e) => !exists_already && e.invalid_with("timezone '"@ + zone + "' not found"@),
    }
}

/// Whether the hardware clock is on local time.
pub open spec fn clock_told(
    content: Option<&str>,
    r: bool,
) -> bool {
    r == (content matches Some(c) && has_part(c@, "LOCAL"@))
}

/// Whether a program keeps the time.
pub open spec fn keeper_told(
    names: Seq<String>,
    r: bool,
) -> bool {
    r == exists|i: int| 0 <= i < names.len() && is_time_keeper((#[trigger] names[i])@)
}

/// A time zone is set just where it has a file, and it is then the one that is
/// told: by the link to that file, and by the name where there is no link.
pub proof fn set_zone_is_told(
    zone: Seq<char>,
    there: bool,
    r: Result<ZoneChange, BusError>,
    link: &str,
    file: &str,
)
    requires
        zone_changed(zone, there, r),
        r is Ok ==> link@ == r->Ok_0.target@ && file@ == r->Ok_0.file@,
        zone.len() > 0 ==> !is_white(zone[0]) && !is_white(zone.last()),
    ensures
        r is Ok <==> there,
        r is Ok ==> zone_named(Some(link), None) == zone,
        r is Ok && zone.len() > 0 ==> zone_named(None, Some(file)) == zone,
        zone_named(None, None) == "UTC"@,
{
    if r is Ok {
        set_timezone_is_told(zone, link, None);
        reveal_strlit("\n");
        if zone.len() > 0 {
            let e = Seq::<char>::empty();
            let nl = seq!['\n'];
            white_space_around_is_taken_off(e, zone, nl);
            assert(e + zone + nl =~= zone + "\n"@);
        }
    }
}

/// Setting the hardware clock to local time, or to universal time, is told back.
pub proof fn set_clock_is_told(local: bool, content: &str, r: bool, none: bool)
    requires
        content@ == adjtime_text(local),
        clock_told(Some(content), r),
        clock_told(None, none),
    ensures
        r == local,
        !none,
{
    set_rtc_is_told(local);
}

/// The time is kept just where one of the running programs is one that keeps
/// it.
pub proof fn time_is_kept_by_a_program(names: Seq<String>, r: bool, i: int)
    requires
        keeper_told(names, r),
    ensures
        0 <= i < names.len() && (has_part(names[i]@, "ntpd"@) || has_part(names[i]@, "chrony"@)
            || has_part(names[i]@, "timesyncd"@)) ==> r,
        r ==> exists|k: int|
            0 <= k < names.len() && (has_part((#[trigger] names[k])@, "ntpd"@) || has_part(
                names[k]@,
                "chrony"@,
            ) || has_part(names[k]@, "timesyncd"@)),
{
    if 0 <= i < names.len() {
        assert(is_time_keeper(names[i]@) ==> r);
    }
    if r {
        let k = choose|k: int| 0 <= k < names.len() && is_time_keeper((#[trigger] names[k])@);
        assert(has_part(names[k]@, "ntpd"@) || has_part(names[k]@, "chrony"@) || has_part(
            names[k]@,
            "timesyncd"@,
        ));
    }
}

} // verus!
