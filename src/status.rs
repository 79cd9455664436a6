//! The closed set of AMSAT report statuses and their colours.
use vstd::prelude::*;

use crate::text::{chars_of, lower_of, lower_text, same_chars};

verus! {

/// Status of a satellite as AMSAT reports give it.
#[derive(Debug, Clone, Copy, PartialEq, Eq, Hash, Structural)]
pub enum ReportStatus {
    /// Heard: transponder or repeater active.
    Blue,
    /// Telemetry or beacon only.
    Yellow,
    /// Conflicting reports.
    Orange,
    /// Not heard.
    Red,
    /// ISS crew voice active.
    Purple,
    /// Unknown.
    Grey,
}

/// The status that a report text names, ignoring case.
pub open spec fn status_of(s: Seq<char>) -> ReportStatus {
    let l = lower_of(s);
    if l == "heard"@ {
        ReportStatus::Blue
    } else if l == "telemetry only"@ {
        ReportStatus::Yellow
    } else if l == "conflicting reports"@ {
        ReportStatus::Orange
    } else if l == "not heard"@ {
        ReportStatus::Red
    } else if l == "crew active"@ {
        ReportStatus::Purple
    } else {
        ReportStatus::Grey
    }
}

pub open spec fn description_of(st: ReportStatus) -> Seq<char> {
    match st {
        ReportStatus::Blue => "Transponder/Repeater active"@,
        ReportStatus::Yellow => "Telemetry/Beacon only"@,
        ReportStatus::Orange => "Conflicting reports"@,
        ReportStatus::Red => "No signal"@,
        ReportStatus::Purple => "ISS Crew (Voice) Active"@,
        ReportStatus::Grey => "Unknown status"@,
    }
}

pub open spec fn report_text_of(st: ReportStatus) -> Seq<char> {
    match st {
        ReportStatus::Blue => "Heard"@,
        ReportStatus::Yellow => "Telemetry Only"@,
        ReportStatus::Red => "Not Heard"@,
        ReportStatus::Purple => "Crew Active"@,
        _ => "Unknown status"@,
    }
}

pub open spec fn color_of(st: ReportStatus) -> Seq<char> {
    match st {
        ReportStatus::Blue => "#4297f3ff"@,
        ReportStatus::Yellow => "#f3cd36ff"@,
        ReportStatus::Orange => "#f97316"@,
        ReportStatus::Red => "#ed3f3fff"@,
        ReportStatus::Purple => "#946af5ff"@,
        ReportStatus::Grey => "#6b7280"@,
    }
}

fn equals_text(v: &[char], s: &str) -> (r: bool)
    ensures
        r == (v@ == s@),
{
    let w = chars_of(s);
    same_chars(v, &w)
}

impl ReportStatus {
    /// A description of the status.
    pub fn to_string(&self) -> (r: String)
        ensures
            r@ == description_of(*self),
    {
        match self {
            ReportStatus::Blue => String::from_str("Transponder/Repeater active"),
            ReportStatus::Yellow => String::from_str("Telemetry/Beacon only"),
            ReportStatus::Orange => String::from_str("Conflicting reports"),
            ReportStatus::Red => String::from_str("No signal"),
            ReportStatus::Purple => String::from_str("ISS Crew (Voice) Active"),
            ReportStatus::Grey => String::from_str("Unknown status"),
        }
    }

    /// The report text that AMSAT uses for the status.
    pub fn to_report_format(&self) -> (r: String)
        ensures
            r@ == report_text_of(*self),
    {
        match self {
            ReportStatus::Blue => String::from_str("Heard"),
            ReportStatus::Yellow => String::from_str("Telemetry Only"),
            ReportStatus::Red => String::from_str("Not Heard"),
            ReportStatus::Purple => String::from_str("Crew Active"),
            _ => String::from_str("Unknown status"),
        }
    }

    /// The status that a report text names (`Heard`, `Not Heard`, ...),
    /// ignoring case; any other text is `Grey`.
    pub fn from_string(s: &str) -> (r: ReportStatus)
        ensures
            r == status_of(s@),
    {
        let v = chars_of(s);
        let l = lower_text(&v);
        if equals_text(&l, "heard") {
            ReportStatus::Blue
        } else if equals_text(&l, "telemetry only") {
            ReportStatus::Yellow
        } else if equals_text(&l, "conflicting reports") {
            ReportStatus::Orange
        } else if equals_text(&l, "not heard") {
            ReportStatus::Red
        } else if equals_text(&l, "crew active") {
            ReportStatus::Purple
        } else {
            ReportStatus::Grey
        }
    }

    /// The colour of the status, as `#rrggbb` or `#rrggbbaa`.
    pub fn to_color_hex(&self) -> (r: &'static str)
        ensures
            r@ == color_of(*self),
    {
        match self {
            ReportStatus::Blue => "#4297f3ff",
            ReportStatus::Yellow => "#f3cd36ff",
            ReportStatus::Orange => "#f97316",
            ReportStatus::Red => "#ed3f3fff",
            ReportStatus::Purple => "#946af5ff",
            ReportStatus::Grey => "#6b7280",
        }
    }

    /// The colour of the status that a report text names.
    pub fn string_to_color_hex(status: &str) -> (r: &'static str)
        ensures
            r@ == color_of(status_of(status@)),
    {
        ReportStatus::from_string(status).to_color_hex()
    }
}

} // verus!
