//! List of all units of measurements used in ASTERIX protocol.
use vstd::prelude::*;
use vstd::string::*;
use crate::strings::{find_str, str_eq};

verus! {

/// Unit of measurement
#[derive(Debug, Clone, Copy, PartialEq, Eq, Structural)]
#[allow(non_camel_case_types)]
pub enum Unit {
    /// Unitless measure
    Unitless,
    /// Percent, 1 part per 100
    Percent,
    /// Second, unit of time
    Second,
    /// Milliseconds, 1**10-3 second
    Millisecond,
    /// Nanoseconds, 1**10-9 second
    NanoSecond,
    /// Femtoseconds, 1**10-15 second
    FemtoSecond,
    /// Degree (angle)
    Degree,
    /// Degree per second (angular speed)
    DegreePerSecond,
    /// Degree Celsius (temperature)
    Celsius,
    /// Flight Level, unit of altitude (expressed in 100's of feet)
    FlightLevel,
    /// MegaHertz
    MHz,
    /// Meter
    Meter,
    /// Kilometer
    KiloMeter,
    /// Meter per second
    MeterPerSecond,
    /// Meter per second squared, acceleration
    MeterPerSecondSq,
    /// Mach number
    Mach,
    /// Nautical Mile, 1852 meters, or 6076 feet
    NauticalMile,
    /// Knot, 1 nautical mile/hour, or 1.852 kilometers / hour
    Knot,
    /// Nautical mile per second, or 1852 meters / second
    NauticalMilePerSecond,
    /// Feet, 0.3048 meters
    Feet,
    /// Feet per minute
    FeetPerMinute,
    /// Hectopascal, 100 Pascal
    HectoPascal,
    /// Millibar, 1*10-3 Bar, 100 Pascal
    Millibar,
    /// The dB is the unit of relative power
    dB,
    /// The dBm is the unit of absolute power related to 1 milliwatt
    dBm,
    /// The dBuV is the unit of absolute power related to 1 microvolt.
    /// `P_{dBm} = E_{dBuV} - 95.2dB`
    dBuV,
    /// Minute, XML-spec specific
    Minute,
    /// Kilobytes per second, XML-spec specific
    KBytesPerSecond,
}

/// The name a unit is written with.
pub open spec fn unit_name(u: Unit) -> &'static str {
    match u {
        Unit::Unitless => "",
        Unit::Percent => "%",
        Unit::Second => "s",
        Unit::Millisecond => "ms",
        Unit::NanoSecond => "ns",
        Unit::FemtoSecond => "fs",
        Unit::Degree => "°",
        Unit::DegreePerSecond => "°/s",
        Unit::Celsius => "°C",
        Unit::FlightLevel => "FL",
        Unit::MHz => "MHz",
        Unit::Meter => "m",
        Unit::KiloMeter => "km",
        Unit::MeterPerSecond => "m/s",
        Unit::MeterPerSecondSq => "m/s2",
        Unit::Mach => "Mach",
        Unit::NauticalMile => "NM",
        Unit::Knot => "kt",
        Unit::NauticalMilePerSecond => "NM/s",
        Unit::Feet => "ft",
        Unit::FeetPerMinute => "ft/min",
        Unit::HectoPascal => "hPa",
        Unit::Millibar => "mb",
        Unit::dB => "dB",
        Unit::dBm => "dBm",
        Unit::dBuV => "dBuV",
        Unit::Minute => "min",
        Unit::KBytesPerSecond => "KBytes/s",
    }
}

/// The unit written `s`, after the names of the XML specifications, if any.
pub open spec fn unit_of_name(s: Seq<char>) -> Option<Unit> {
    if s == ""@ {
        Some(Unit::Unitless)
    } else if s == "%"@ {
        Some(Unit::Percent)
    } else if s == "s"@ {
        Some(Unit::Second)
    } else if s == "ms"@ {
        Some(Unit::Millisecond)
    } else if s == "ns"@ {
        Some(Unit::NanoSecond)
    } else if s == "fs"@ {
        Some(Unit::FemtoSecond)
    } else if s == "°"@ {
        Some(Unit::Degree)
    } else if s == "°/s"@ {
        Some(Unit::DegreePerSecond)
    } else if s == "°C"@ {
        Some(Unit::Celsius)
    } else if s == "FL"@ {
        Some(Unit::FlightLevel)
    } else if s == "MHz"@ {
        Some(Unit::MHz)
    } else if s == "m"@ {
        Some(Unit::Meter)
    } else if s == "km"@ {
        Some(Unit::KiloMeter)
    } else if s == "m/s"@ {
        Some(Unit::MeterPerSecond)
    } else if s == "m/s2"@ {
        Some(Unit::MeterPerSecondSq)
    } else if s == "Mach"@ {
        Some(Unit::Mach)
    } else if s == "NM"@ {
        Some(Unit::NauticalMile)
    } else if s == "kt"@ {
        Some(Unit::Knot)
    } else if s == "NM/s"@ {
        Some(Unit::NauticalMilePerSecond)
    } else if s == "ft"@ {
        Some(Unit::Feet)
    } else if s == "ft/min"@ {
        Some(Unit::FeetPerMinute)
    } else if s == "hPa"@ {
        Some(Unit::HectoPascal)
    } else if s == "mb"@ {
        Some(Unit::Millibar)
    } else if s == "dB"@ {
        Some(Unit::dB)
    } else if s == "dBm"@ {
        Some(Unit::dBm)
    } else if s == "*2^(-6+f)"@ {
        Some(Unit::NauticalMile)
    } else if s == "* 2^(-6+f)"@ {
        Some(Unit::NauticalMile)
    } else if s == "* 2^(-7+f)"@ {
        Some(Unit::NauticalMile)
    } else if s == "*10E-5"@ {
        Some(Unit::Unitless)
    } else if s == "dBuV"@ {
        Some(Unit::dBuV)
    } else if s == "min"@ {
        Some(Unit::Minute)
    } else if s == "KBytes/s"@ {
        Some(Unit::KBytesPerSecond)
    } else if s == "sec"@ {
        Some(Unit::Second)
    } else if s == "deg"@ {
        Some(Unit::Degree)
    } else if s == "deg."@ {
        Some(Unit::Degree)
    } else if s == "deg/s"@ {
        Some(Unit::DegreePerSecond)
    } else if s == "deg/sec"@ {
        Some(Unit::DegreePerSecond)
    } else if s == "C"@ {
        Some(Unit::Celsius)
    } else if s == "deg C"@ {
        Some(Unit::Celsius)
    } else if s == "m/sec"@ {
        Some(Unit::MeterPerSecond)
    } else if s == "m/s^2"@ {
        Some(Unit::MeterPerSecondSq)
    } else if s == "m/s²"@ {
        Some(Unit::MeterPerSecondSq)
    } else if s == "Nm"@ {
        Some(Unit::NauticalMile)
    } else if s == "knot"@ {
        Some(Unit::Knot)
    } else if s == "feet/minute"@ {
        Some(Unit::FeetPerMinute)
    } else if s == "mbar"@ {
        Some(Unit::Millibar)
    } else {
        None
    }
}

/// The note marker some unit names carry, after which the text is ignored.
pub open spec fn note_marker() -> &'static str {
    " /Note:"
}

/// The part of a unit text before its first note marker.
pub open spec fn unit_text(s: Seq<char>) -> Seq<char> {
    match crate::strings::first_occurrence(s, note_marker()@) {
        Some(i) => s.take(i),
        None => s,
    }
}

impl Unit {
    /// The name the unit is written with.
    pub fn to_str(&self) -> (r: &'static str)
        ensures
            r@ == unit_name(*self)@,
    {
        match self {
            Unit::Unitless => "",
            Unit::Percent => "%",
            Unit::Second => "s",
            Unit::Millisecond => "ms",
            Unit::NanoSecond => "ns",
            Unit::FemtoSecond => "fs",
            Unit::Degree => "°",
            Unit::DegreePerSecond => "°/s",
            Unit::Celsius => "°C",
            Unit::FlightLevel => "FL",
            Unit::MHz => "MHz",
            Unit::Meter => "m",
            Unit::KiloMeter => "km",
            Unit::MeterPerSecond => "m/s",
            Unit::MeterPerSecondSq => "m/s2",
            Unit::Mach => "Mach",
            Unit::NauticalMile => "NM",
            Unit::Knot => "kt",
            Unit::NauticalMilePerSecond => "NM/s",
            Unit::Feet => "ft",
            Unit::FeetPerMinute => "ft/min",
            Unit::HectoPascal => "hPa",
            Unit::Millibar => "mb",
            Unit::dB => "dB",
            Unit::dBm => "dBm",
            Unit::dBuV => "dBuV",
            Unit::Minute => "min",
            Unit::KBytesPerSecond => "KBytes/s",
        }
    }

    /// Parses a unit name; a note marker and what follows it are ignored.
    pub fn parse_str(s: &str) -> (r: Result<Unit, String>)
        ensures
            match unit_of_name(unit_text(s@)) {
                Some(u) => r == Ok::<Unit, String>(u),
                None => r matches Err(m) && m@ == "unknown unit `"@ + unit_text(s@) + "`"@,
            },
    {
        let marker = " /Note:";
        let text = match find_str(s, marker) {
            Some(i) => s.substring_char(0, i),
            None => s,
        };
        assert(text@ == unit_text(s@));
        if str_eq(text, "") {
            Ok(Unit::Unitless)
        } else if str_eq(text, "%") {
            Ok(Unit::Percent)
        } else if str_eq(text, "s") {
            Ok(Unit::Second)
        } else if str_eq(text, "ms") {
            Ok(Unit::Millisecond)
        } else if str_eq(text, "ns") {
            Ok(Unit::NanoSecond)
        } else if str_eq(text, "fs") {
            Ok(Unit::FemtoSecond)
        } else if str_eq(text, "°") {
            Ok(Unit::Degree)
        } else if str_eq(text, "°/s") {
            Ok(Unit::DegreePerSecond)
        } else if str_eq(text, "°C") {
            Ok(Unit::Celsius)
        } else if str_eq(text, "FL") {
            Ok(Unit::FlightLevel)
        } else if str_eq(text, "MHz") {
            Ok(Unit::MHz)
        } else if str_eq(text, "m") {
            Ok(Unit::Meter)
        } else if str_eq(text, "km") {
            Ok(Unit::KiloMeter)
        } else if str_eq(text, "m/s") {
            Ok(Unit::MeterPerSecond)
        } else if str_eq(text, "m/s2") {
            Ok(Unit::MeterPerSecondSq)
        } else if str_eq(text, "Mach") {
            Ok(Unit::Mach)
        } else if str_eq(text, "NM") {
            Ok(Unit::NauticalMile)
        } else if str_eq(text, "kt") {
            Ok(Unit::Knot)
        } else if str_eq(text, "NM/s") {
            Ok(Unit::NauticalMilePerSecond)
        } else if str_eq(text, "ft") {
            Ok(Unit::Feet)
        } else if str_eq(text, "ft/min") {
            Ok(Unit::FeetPerMinute)
        } else if str_eq(text, "hPa") {
            Ok(Unit::HectoPascal)
        } else if str_eq(text, "mb") {
            Ok(Unit::Millibar)
        } else if str_eq(text, "dB") {
            Ok(Unit::dB)
        } else if str_eq(text, "dBm") {
            Ok(Unit::dBm)
        } else if str_eq(text, "*2^(-6+f)") {
            Ok(Unit::NauticalMile)
        } else if str_eq(text, "* 2^(-6+f)") {
            Ok(Unit::NauticalMile)
        } else if str_eq(text, "* 2^(-7+f)") {
            Ok(Unit::NauticalMile)
        } else if str_eq(text, "*10E-5") {
            Ok(Unit::Unitless)
        } else if str_eq(text, "dBuV") {
            Ok(Unit::dBuV)
        } else if str_eq(text, "min") {
            Ok(Unit::Minute)
        } else if str_eq(text, "KBytes/s") {
            Ok(Unit::KBytesPerSecond)
        } else if str_eq(text, "sec") {
            Ok(Unit::Second)
        } else if str_eq(text, "deg") {
            Ok(Unit::Degree)
        } else if str_eq(text, "deg.") {
            Ok(Unit::Degree)
        } else if str_eq(text, "deg/s") {
            Ok(Unit::DegreePerSecond)
        } else if str_eq(text, "deg/sec") {
            Ok(Unit::DegreePerSecond)
        } else if str_eq(text, "C") {
            Ok(Unit::Celsius)
        } else if str_eq(text, "deg C") {
            Ok(Unit::Celsius)
        } else if str_eq(text, "m/sec") {
            Ok(Unit::MeterPerSecond)
        } else if str_eq(text, "m/s^2") {
            Ok(Unit::MeterPerSecondSq)
        } else if str_eq(text, "m/s²") {
            Ok(Unit::MeterPerSecondSq)
        } else if str_eq(text, "Nm") {
            Ok(Unit::NauticalMile)
        } else if str_eq(text, "knot") {
            Ok(Unit::Knot)
        } else if str_eq(text, "feet/minute") {
            Ok(Unit::FeetPerMinute)
        } else if str_eq(text, "mbar") {
            Ok(Unit::Millibar)
        } else {
            let mut msg = String::from_str("unknown unit `");
            msg.append(text);
            msg.append("`");
            Err(msg)
        }
    }
}

impl std::str::FromStr for Unit {
    type Err = String;

    fn from_str(s: &str) -> (r: Result<Self, Self::Err>)
        ensures
            match unit_of_name(unit_text(s@)) {
                Some(u) => r == Ok::<Unit, String>(u),
                None => r matches Err(m) && m@ == "unknown unit `"@ + unit_text(s@) + "`"@,
            },
    {
        Unit::parse_str(s)
    }
}

/// A name shorter than the note marker holds no note.
proof fn lemma_unit_text_short(s: Seq<char>)
    requires
        s.len() < 7,
    ensures
        unit_text(s) == s,
{
    reveal_strlit(" /Note:");
    assert(" /Note:"@.len() == 7);
}

/// A unit written by `to_str` parses back to itself.
pub proof fn lemma_unit_name_roundtrip(u: Unit)
    ensures
        unit_of_name(unit_text(unit_name(u)@)) == Some(u),
{
    let n = unit_name(u)@;
    reveal_strlit("KBytes/s");
    reveal_strlit(" /Note:");
    if u == Unit::KBytesPerSecond {
        let m = " /Note:"@;
        assert(n.len() == 8);
        assert(m.len() == 7);
        assert(n[0] == 'K' && m[0] == ' ');
        assert(n.take(7) != m);
        assert(n.skip(1)[0] == 'B');
        assert(n.skip(1).take(7) != m);
        assert(n.skip(1).skip(1).len() < 7);
        assert(crate::strings::first_occurrence(n.skip(1).skip(1), m) is None);
        assert(crate::strings::first_occurrence(n.skip(1), m) is None);
        assert(crate::strings::first_occurrence(n, m) is None);
    } else {
        lemma_unit_name_short(u);
        lemma_unit_text_short(n);
    }
    lemma_unit_name_parses(u);
}

/// Every name but that of kilobytes per second is short.
proof fn lemma_unit_name_short(u: Unit)
    requires
        u != Unit::KBytesPerSecond,
    ensures
        unit_name(u)@.len() < 7,
{
    match u {
        Unit::Unitless => {
            reveal_strlit("");
            assert(""@.len() == 0);
        },
        Unit::Percent => {
            reveal_strlit("%");
            assert("%"@.len() == 1);
        },
        Unit::Second => {
            reveal_strlit("s");
            assert("s"@.len() == 1);
        },
        Unit::Millisecond => {
            reveal_strlit("ms");
            assert("ms"@.len() == 2);
        },
        Unit::NanoSecond => {
            reveal_strlit("ns");
            assert("ns"@.len() == 2);
        },
        Unit::FemtoSecond => {
            reveal_strlit("fs");
            assert("fs"@.len() == 2);
        },
        Unit::Degree => {
            reveal_strlit("°");
            assert("°"@.len() == 1);
        },
        Unit::DegreePerSecond => {
            reveal_strlit("°/s");
            assert("°/s"@.len() == 3);
        },
        Unit::Celsius => {
            reveal_strlit("°C");
            assert("°C"@.len() == 2);
        },
        Unit::FlightLevel => {
            reveal_strlit("FL");
            assert("FL"@.len() == 2);
        },
        Unit::MHz => {
            reveal_strlit("MHz");
            assert("MHz"@.len() == 3);
        },
        Unit::Meter => {
            reveal_strlit("m");
            assert("m"@.len() == 1);
        },
        Unit::KiloMeter => {
            reveal_strlit("km");
            assert("km"@.len() == 2);
        },
        Unit::MeterPerSecond => {
            reveal_strlit("m/s");
            assert("m/s"@.len() == 3);
        },
        Unit::MeterPerSecondSq => {
            reveal_strlit("m/s2");
            assert("m/s2"@.len() == 4);
        },
        Unit::Mach => {
            reveal_strlit("Mach");
            assert("Mach"@.len() == 4);
        },
        Unit::NauticalMile => {
            reveal_strlit("NM");
            assert("NM"@.len() == 2);
        },
        Unit::Knot => {
            reveal_strlit("kt");
            assert("kt"@.len() == 2);
        },
        Unit::NauticalMilePerSecond => {
            reveal_strlit("NM/s");
            assert("NM/s"@.len() == 4);
        },
        Unit::Feet => {
            reveal_strlit("ft");
            assert("ft"@.len() == 2);
        },
        Unit::FeetPerMinute => {
            reveal_strlit("ft/min");
            assert("ft/min"@.len() == 6);
        },
        Unit::HectoPascal => {
            reveal_strlit("hPa");
            assert("hPa"@.len() == 3);
        },
        Unit::Millibar => {
            reveal_strlit("mb");
            assert("mb"@.len() == 2);
        },
        Unit::dB => {
            reveal_strlit("dB");
            assert("dB"@.len() == 2);
        },
        Unit::dBm => {
            reveal_strlit("dBm");
            assert("dBm"@.len() == 3);
        },
        Unit::dBuV => {
            reveal_strlit("dBuV");
            assert("dBuV"@.len() == 4);
        },
        Unit::Minute => {
            reveal_strlit("min");
            assert("min"@.len() == 3);
        },
        Unit::KBytesPerSecond => {},
    }
}

/// Each name parses to its unit.
proof fn lemma_unit_name_parses(u: Unit)
    ensures
        unit_of_name(unit_name(u)@) == Some(u),
{
    match u {
        Unit::Unitless => {
            reveal_strlit("");

        },
        Unit::Percent => {
            reveal_strlit("");
            reveal_strlit("%");
            assert(""@.len() == 0);
            assert("%"@.len() == 1);
            assert(""@ != "%"@);
        },
        Unit::Second => {
            reveal_strlit("");
            reveal_strlit("%");
            reveal_strlit("s");
            assert(""@.len() == 0);
            assert("s"@.len() == 1);
            assert(""@ != "s"@);
            assert("%"@[0] == '%');
            assert("s"@[0] == 's');
            assert("%"@ != "s"@);
        },
        Unit::Millisecond => {
            reveal_strlit("");
            reveal_strlit("%");
            reveal_strlit("s");
            reveal_strlit("ms");
            assert(""@.len() == 0);
            assert("ms"@.len() == 2);
            assert(""@ != "ms"@);
            assert("%"@.len() == 1);
            assert("ms"@.len() == 2);
            assert("%"@ != "ms"@);
            assert("s"@.len() == 1);
            assert("ms"@.len() == 2);
            assert("s"@ != "ms"@);
        },
        Unit::NanoSecond => {
            reveal_strlit("");
            reveal_strlit("%");
            reveal_strlit("s");
            reveal_strlit("ms");
            reveal_strlit("ns");
            assert(""@.len() == 0);
            assert("ns"@.len() == 2);
            assert(""@ != "ns"@);
            assert("%"@.len() == 1);
            assert("ns"@.len() == 2);
            assert("%"@ != "ns"@);
            assert("s"@.len() == 1);
            assert("ns"@.len() == 2);
            assert("s"@ != "ns"@);
            assert("ms"@[0] == 'm');
            assert("ns"@[0] == 'n');
            assert("ms"@ != "ns"@);
        },
        Unit::FemtoSecond => {
            reveal_strlit("");
            reveal_strlit("%");
            reveal_strlit("s");
            reveal_strlit("ms");
            reveal_strlit("ns");
            reveal_strlit("fs");
            assert(""@.len() == 0);
            assert("fs"@.len() == 2);
            assert(""@ != "fs"@);
            assert("%"@.len() == 1);
            assert("fs"@.len() == 2);
            assert("%"@ != "fs"@);
            assert("s"@.len() == 1);
            assert("fs"@.len() == 2);
            assert("s"@ != "fs"@);
            assert("ms"@[0] == 'm');
            assert("fs"@[0] == 'f');
            assert("ms"@ != "fs"@);
            assert("ns"@[0] == 'n');
            assert("fs"@[0] == 'f');
            assert("ns"@ != "fs"@);
        },
        Unit::Degree => {
            reveal_strlit("");
            reveal_strlit("%");
            reveal_strlit("s");
            reveal_strlit("ms");
            reveal_strlit("ns");
            reveal_strlit("fs");
            reveal_strlit("°");
            assert(""@.len() == 0);
            assert("°"@.len() == 1);
            assert(""@ != "°"@);
            assert("%"@[0] == '%');
            assert("°"@[0] == '°');
            assert("%"@ != "°"@);
            assert("s"@[0] == 's');
            assert("°"@[0] == '°');
            assert("s"@ != "°"@);
            assert("ms"@.len() == 2);
            assert("°"@.len() == 1);
            assert("ms"@ != "°"@);
            assert("ns"@.len() == 2);
            assert("°"@.len() == 1);
            assert("ns"@ != "°"@);
            assert("fs"@.len() == 2);
            assert("°"@.len() == 1);
            assert("fs"@ != "°"@);
        },
        Unit::DegreePerSecond => {
            reveal_strlit("");
            reveal_strlit("%");
            reveal_strlit("s");
            reveal_strlit("ms");
            reveal_strlit("ns");
            reveal_strlit("fs");
            reveal_strlit("°");
            reveal_strlit("°/s");
            assert(""@.len() == 0);
            assert("°/s"@.len() == 3);
            assert(""@ != "°/s"@);
            assert("%"@.len() == 1);
            assert("°/s"@.len() == 3);
            assert("%"@ != "°/s"@);
            assert("s"@.len() == 1);
            assert("°/s"@.len() == 3);
            assert("s"@ != "°/s"@);
            assert("ms"@.len() == 2);
            assert("°/s"@.len() == 3);
            assert("ms"@ != "°/s"@);
            assert("ns"@.len() == 2);
            assert("°/s"@.len() == 3);
            assert("ns"@ != "°/s"@);
            assert("fs"@.len() == 2);
            assert("°/s"@.len() == 3);
            assert("fs"@ != "°/s"@);
            assert("°"@.len() == 1);
            assert("°/s"@.len() == 3);
            assert("°"@ != "°/s"@);
        },
        Unit::Celsius => {
            reveal_strlit("");
            reveal_strlit("%");
            reveal_strlit("s");
            reveal_strlit("ms");
            reveal_strlit("ns");
            reveal_strlit("fs");
            reveal_strlit("°");
            reveal_strlit("°/s");
            reveal_strlit("°C");
            assert(""@.len() == 0);
            assert("°C"@.len() == 2);
            assert(""@ != "°C"@);
            assert("%"@.len() == 1);
            assert("°C"@.len() == 2);
            assert("%"@ != "°C"@);
            assert("s"@.len() == 1);
            assert("°C"@.len() == 2);
            assert("s"@ != "°C"@);
            assert("ms"@[0] == 'm');
            assert("°C"@[0] == '°');
            assert("ms"@ != "°C"@);
            assert("ns"@[0] == 'n');
            assert("°C"@[0] == '°');
            assert("ns"@ != "°C"@);
            assert("fs"@[0] == 'f');
            assert("°C"@[0] == '°');
            assert("fs"@ != "°C"@);
            assert("°"@.len() == 1);
            assert("°C"@.len() == 2);
            assert("°"@ != "°C"@);
            assert("°/s"@.len() == 3);
            assert("°C"@.len() == 2);
            assert("°/s"@ != "°C"@);
        },
        Unit::FlightLevel => {
            reveal_strlit("");
            reveal_strlit("%");
            reveal_strlit("s");
            reveal_strlit("ms");
            reveal_strlit("ns");
            reveal_strlit("fs");
            reveal_strlit("°");
            reveal_strlit("°/s");
            reveal_strlit("°C");
            reveal_strlit("FL");
            assert(""@.len() == 0);
            assert("FL"@.len() == 2);
            assert(""@ != "FL"@);
            assert("%"@.len() == 1);
            assert("FL"@.len() == 2);
            assert("%"@ != "FL"@);
            assert("s"@.len() == 1);
            assert("FL"@.len() == 2);
            assert("s"@ != "FL"@);
            assert("ms"@[0] == 'm');
            assert("FL"@[0] == 'F');
            assert("ms"@ != "FL"@);
            assert("ns"@[0] == 'n');
            assert("FL"@[0] == 'F');
            assert("ns"@ != "FL"@);
            assert("fs"@[0] == 'f');
            assert("FL"@[0] == 'F');
            assert("fs"@ != "FL"@);
            assert("°"@.len() == 1);
            assert("FL"@.len() == 2);
            assert("°"@ != "FL"@);
            assert("°/s"@.len() == 3);
            assert("FL"@.len() == 2);
            assert("°/s"@ != "FL"@);
            assert("°C"@[0] == '°');
            assert("FL"@[0] == 'F');
            assert("°C"@ != "FL"@);
        },
        Unit::MHz => {
            reveal_strlit("");
            reveal_strlit("%");
            reveal_strlit("s");
            reveal_strlit("ms");
            reveal_strlit("ns");
            reveal_strlit("fs");
            reveal_strlit("°");
            reveal_strlit("°/s");
            reveal_strlit("°C");
            reveal_strlit("FL");
            reveal_strlit("MHz");
            assert(""@.len() == 0);
            assert("MHz"@.len() == 3);
            assert(""@ != "MHz"@);
            assert("%"@.len() == 1);
            assert("MHz"@.len() == 3);
            assert("%"@ != "MHz"@);
            assert("s"@.len() == 1);
            assert("MHz"@.len() == 3);
            assert("s"@ != "MHz"@);
            assert("ms"@.len() == 2);
            assert("MHz"@.len() == 3);
            assert("ms"@ != "MHz"@);
            assert("ns"@.len() == 2);
            assert("MHz"@.len() == 3);
            assert("ns"@ != "MHz"@);
            assert("fs"@.len() == 2);
            assert("MHz"@.len() == 3);
            assert("fs"@ != "MHz"@);
            assert("°"@.len() == 1);
            assert("MHz"@.len() == 3);
            assert("°"@ != "MHz"@);
            assert("°/s"@[0] == '°');
            assert("MHz"@[0] == 'M');
            assert("°/s"@ != "MHz"@);
            assert("°C"@.len() == 2);
            assert("MHz"@.len() == 3);
            assert("°C"@ != "MHz"@);
            assert("FL"@.len() == 2);
            assert("MHz"@.len() == 3);
            assert("FL"@ != "MHz"@);
        },
        Unit::Meter => {
            reveal_strlit("");
            reveal_strlit("%");
            reveal_strlit("s");
            reveal_strlit("ms");
            reveal_strlit("ns");
            reveal_strlit("fs");
            reveal_strlit("°");
            reveal_strlit("°/s");
            reveal_strlit("°C");
            reveal_strlit("FL");
            reveal_strlit("MHz");
            reveal_strlit("m");
            assert(""@.len() == 0);
            assert("m"@.len() == 1);
            assert(""@ != "m"@);
            assert("%"@[0] == '%');
            assert("m"@[0] == 'm');
            assert("%"@ != "m"@);
            assert("s"@[0] == 's');
            assert("m"@[0] == 'm');
            assert("s"@ != "m"@);
            assert("ms"@.len() == 2);
            assert("m"@.len() == 1);
            assert("ms"@ != "m"@);
            assert("ns"@.len() == 2);
            assert("m"@.len() == 1);
            assert("ns"@ != "m"@);
            assert("fs"@.len() == 2);
            assert("m"@.len() == 1);
            assert("fs"@ != "m"@);
            assert("°"@[0] == '°');
            assert("m"@[0] == 'm');
            assert("°"@ != "m"@);
            assert("°/s"@.len() == 3);
            assert("m"@.len() == 1);
            assert("°/s"@ != "m"@);
            assert("°C"@.len() == 2);
            assert("m"@.len() == 1);
            assert("°C"@ != "m"@);
            assert("FL"@.len() == 2);
            assert("m"@.len() == 1);
            assert("FL"@ != "m"@);
            assert("MHz"@.len() == 3);
            assert("m"@.len() == 1);
            assert("MHz"@ != "m"@);
        },
        Unit::KiloMeter => {
            reveal_strlit("");
            reveal_strlit("%");
            reveal_strlit("s");
            reveal_strlit("ms");
            reveal_strlit("ns");
            reveal_strlit("fs");
            reveal_strlit("°");
            reveal_strlit("°/s");
            reveal_strlit("°C");
            reveal_strlit("FL");
            reveal_strlit("MHz");
            reveal_strlit("m");
            reveal_strlit("km");
            assert(""@.len() == 0);
            assert("km"@.len() == 2);
            assert(""@ != "km"@);
            assert("%"@.len() == 1);
            assert("km"@.len() == 2);
            assert("%"@ != "km"@);
            assert("s"@.len() == 1);
            assert("km"@.len() == 2);
            assert("s"@ != "km"@);
            assert("ms"@[0] == 'm');
            assert("km"@[0] == 'k');
            assert("ms"@ != "km"@);
            assert("ns"@[0] == 'n');
            assert("km"@[0] == 'k');
            assert("ns"@ != "km"@);
            assert("fs"@[0] == 'f');
            assert("km"@[0] == 'k');
            assert("fs"@ != "km"@);
            assert("°"@.len() == 1);
            assert("km"@.len() == 2);
            assert("°"@ != "km"@);
            assert("°/s"@.len() == 3);
            assert("km"@.len() == 2);
            assert("°/s"@ != "km"@);
            assert("°C"@[0] == '°');
            assert("km"@[0] == 'k');
            assert("°C"@ != "km"@);
            assert("FL"@[0] == 'F');
            assert("km"@[0] == 'k');
            assert("FL"@ != "km"@);
            assert("MHz"@.len() == 3);
            assert("km"@.len() == 2);
            assert("MHz"@ != "km"@);
            assert("m"@.len() == 1);
            assert("km"@.len() == 2);
            assert("m"@ != "km"@);
        },
        Unit::MeterPerSecond => {
            reveal_strlit("");
            reveal_strlit("%");
            reveal_strlit("s");
            reveal_strlit("ms");
            reveal_strlit("ns");
            reveal_strlit("fs");
            reveal_strlit("°");
            reveal_strlit("°/s");
            reveal_strlit("°C");
            reveal_strlit("FL");
            reveal_strlit("MHz");
            reveal_strlit("m");
            reveal_strlit("km");
            reveal_strlit("m/s");
            assert(""@.len() == 0);
            assert("m/s"@.len() == 3);
            assert(""@ != "m/s"@);
            assert("%"@.len() == 1);
            assert("m/s"@.len() == 3);
            assert("%"@ != "m/s"@);
            assert("s"@.len() == 1);
            assert("m/s"@.len() == 3);
            assert("s"@ != "m/s"@);
            assert("ms"@.len() == 2);
            assert("m/s"@.len() == 3);
            assert("ms"@ != "m/s"@);
            assert("ns"@.len() == 2);
            assert("m/s"@.len() == 3);
            assert("ns"@ != "m/s"@);
            assert("fs"@.len() == 2);
            assert("m/s"@.len() == 3);
            assert("fs"@ != "m/s"@);
            assert("°"@.len() == 1);
            assert("m/s"@.len() == 3);
            assert("°"@ != "m/s"@);
            assert("°/s"@[0] == '°');
            assert("m/s"@[0] == 'm');
            assert("°/s"@ != "m/s"@);
            assert("°C"@.len() == 2);
            assert("m/s"@.len() == 3);
            assert("°C"@ != "m/s"@);
            assert("FL"@.len() == 2);
            assert("m/s"@.len() == 3);
            assert("FL"@ != "m/s"@);
            assert("MHz"@[0] == 'M');
            assert("m/s"@[0] == 'm');
            assert("MHz"@ != "m/s"@);
            assert("m"@.len() == 1);
            assert("m/s"@.len() == 3);
            assert("m"@ != "m/s"@);
            assert("km"@.len() == 2);
            assert("m/s"@.len() == 3);
            assert("km"@ != "m/s"@);
        },
        Unit::MeterPerSecondSq => {
            reveal_strlit("");
            reveal_strlit("%");
            reveal_strlit("s");
            reveal_strlit("ms");
            reveal_strlit("ns");
            reveal_strlit("fs");
            reveal_strlit("°");
            reveal_strlit("°/s");
            reveal_strlit("°C");
            reveal_strlit("FL");
            reveal_strlit("MHz");
            reveal_strlit("m");
            reveal_strlit("km");
            reveal_strlit("m/s");
            reveal_strlit("m/s2");
            assert(""@.len() == 0);
            assert("m/s2"@.len() == 4);
            assert(""@ != "m/s2"@);
            assert("%"@.len() == 1);
            assert("m/s2"@.len() == 4);
            assert("%"@ != "m/s2"@);
            assert("s"@.len() == 1);
            assert("m/s2"@.len() == 4);
            assert("s"@ != "m/s2"@);
            assert("ms"@.len() == 2);
            assert("m/s2"@.len() == 4);
            assert("ms"@ != "m/s2"@);
            assert("ns"@.len() == 2);
            assert("m/s2"@.len() == 4);
            assert("ns"@ != "m/s2"@);
            assert("fs"@.len() == 2);
            assert("m/s2"@.len() == 4);
            assert("fs"@ != "m/s2"@);
            assert("°"@.len() == 1);
            assert("m/s2"@.len() == 4);
            assert("°"@ != "m/s2"@);
            assert("°/s"@.len() == 3);
            assert("m/s2"@.len() == 4);
            assert("°/s"@ != "m/s2"@);
            assert("°C"@.len() == 2);
            assert("m/s2"@.len() == 4);
            assert("°C"@ != "m/s2"@);
            assert("FL"@.len() == 2);
            assert("m/s2"@.len() == 4);
            assert("FL"@ != "m/s2"@);
            assert("MHz"@.len() == 3);
            assert("m/s2"@.len() == 4);
            assert("MHz"@ != "m/s2"@);
            assert("m"@.len() == 1);
            assert("m/s2"@.len() == 4);
            assert("m"@ != "m/s2"@);
            assert("km"@.len() == 2);
            assert("m/s2"@.len() == 4);
            assert("km"@ != "m/s2"@);
            assert("m/s"@.len() == 3);
            assert("m/s2"@.len() == 4);
            assert("m/s"@ != "m/s2"@);
        },
        Unit::Mach => {
            reveal_strlit("");
            reveal_strlit("%");
            reveal_strlit("s");
            reveal_strlit("ms");
            reveal_strlit("ns");
            reveal_strlit("fs");
            reveal_strlit("°");
            reveal_strlit("°/s");
            reveal_strlit("°C");
            reveal_strlit("FL");
            reveal_strlit("MHz");
            reveal_strlit("m");
            reveal_strlit("km");
            reveal_strlit("m/s");
            reveal_strlit("m/s2");
            reveal_strlit("Mach");
            assert(""@.len() == 0);
            assert("Mach"@.len() == 4);
            assert(""@ != "Mach"@);
            assert("%"@.len() == 1);
            assert("Mach"@.len() == 4);
            assert("%"@ != "Mach"@);
            assert("s"@.len() == 1);
            assert("Mach"@.len() == 4);
            assert("s"@ != "Mach"@);
            assert("ms"@.len() == 2);
            assert("Mach"@.len() == 4);
            assert("ms"@ != "Mach"@);
            assert("ns"@.len() == 2);
            assert("Mach"@.len() == 4);
            assert("ns"@ != "Mach"@);
            assert("fs"@.len() == 2);
            assert("Mach"@.len() == 4);
            assert("fs"@ != "Mach"@);
            assert("°"@.len() == 1);
            assert("Mach"@.len() == 4);
            assert("°"@ != "Mach"@);
            assert("°/s"@.len() == 3);
            assert("Mach"@.len() == 4);
            assert("°/s"@ != "Mach"@);
            assert("°C"@.len() == 2);
            assert("Mach"@.len() == 4);
            assert("°C"@ != "Mach"@);
            assert("FL"@.len() == 2);
            assert("Mach"@.len() == 4);
            assert("FL"@ != "Mach"@);
            assert("MHz"@.len() == 3);
            assert("Mach"@.len() == 4);
            assert("MHz"@ != "Mach"@);
            assert("m"@.len() == 1);
            assert("Mach"@.len() == 4);
            assert("m"@ != "Mach"@);
            assert("km"@.len() == 2);
            assert("Mach"@.len() == 4);
            assert("km"@ != "Mach"@);
            assert("m/s"@.len() == 3);
            assert("Mach"@.len() == 4);
            assert("m/s"@ != "Mach"@);
            assert("m/s2"@[0] == 'm');
            assert("Mach"@[0] == 'M');
            assert("m/s2"@ != "Mach"@);
        },
        Unit::NauticalMile => {
            reveal_strlit("");
            reveal_strlit("%");
            reveal_strlit("s");
            reveal_strlit("ms");
            reveal_strlit("ns");
            reveal_strlit("fs");
            reveal_strlit("°");
            reveal_strlit("°/s");
            reveal_strlit("°C");
            reveal_strlit("FL");
            reveal_strlit("MHz");
            reveal_strlit("m");
            reveal_strlit("km");
            reveal_strlit("m/s");
            reveal_strlit("m/s2");
            reveal_strlit("Mach");
            reveal_strlit("NM");
            assert(""@.len() == 0);
            assert("NM"@.len() == 2);
            assert(""@ != "NM"@);
            assert("%"@.len() == 1);
            assert("NM"@.len() == 2);
            assert("%"@ != "NM"@);
            assert("s"@.len() == 1);
            assert("NM"@.len() == 2);
            assert("s"@ != "NM"@);
            assert("ms"@[0] == 'm');
            assert("NM"@[0] == 'N');
            assert("ms"@ != "NM"@);
            assert("ns"@[0] == 'n');
            assert("NM"@[0] == 'N');
            assert("ns"@ != "NM"@);
            assert("fs"@[0] == 'f');
            assert("NM"@[0] == 'N');
            assert("fs"@ != "NM"@);
            assert("°"@.len() == 1);
            assert("NM"@.len() == 2);
            assert("°"@ != "NM"@);
            assert("°/s"@.len() == 3);
            assert("NM"@.len() == 2);
            assert("°/s"@ != "NM"@);
            assert("°C"@[0] == '°');
            assert("NM"@[0] == 'N');
            assert("°C"@ != "NM"@);
            assert("FL"@[0] == 'F');
            assert("NM"@[0] == 'N');
            assert("FL"@ != "NM"@);
            assert("MHz"@.len() == 3);
            assert("NM"@.len() == 2);
            assert("MHz"@ != "NM"@);
            assert("m"@.len() == 1);
            assert("NM"@.len() == 2);
            assert("m"@ != "NM"@);
            assert("km"@[0] == 'k');
            assert("NM"@[0] == 'N');
            assert("km"@ != "NM"@);
            assert("m/s"@.len() == 3);
            assert("NM"@.len() == 2);
            assert("m/s"@ != "NM"@);
            assert("m/s2"@.len() == 4);
            assert("NM"@.len() == 2);
            assert("m/s2"@ != "NM"@);
            assert("Mach"@.len() == 4);
            assert("NM"@.len() == 2);
            assert("Mach"@ != "NM"@);
        },
        Unit::Knot => {
            reveal_strlit("");
            reveal_strlit("%");
            reveal_strlit("s");
            reveal_strlit("ms");
            reveal_strlit("ns");
            reveal_strlit("fs");
            reveal_strlit("°");
            reveal_strlit("°/s");
            reveal_strlit("°C");
            reveal_strlit("FL");
            reveal_strlit("MHz");
            reveal_strlit("m");
            reveal_strlit("km");
            reveal_strlit("m/s");
            reveal_strlit("m/s2");
            reveal_strlit("Mach");
            reveal_strlit("NM");
            reveal_strlit("kt");
            assert(""@.len() == 0);
            assert("kt"@.len() == 2);
            assert(""@ != "kt"@);
            assert("%"@.len() == 1);
            assert("kt"@.len() == 2);
            assert("%"@ != "kt"@);
            assert("s"@.len() == 1);
            assert("kt"@.len() == 2);
            assert("s"@ != "kt"@);
            assert("ms"@[0] == 'm');
            assert("kt"@[0] == 'k');
            assert("ms"@ != "kt"@);
            assert("ns"@[0] == 'n');
            assert("kt"@[0] == 'k');
            assert("ns"@ != "kt"@);
            assert("fs"@[0] == 'f');
            assert("kt"@[0] == 'k');
            assert("fs"@ != "kt"@);
            assert("°"@.len() == 1);
            assert("kt"@.len() == 2);
            assert("°"@ != "kt"@);
            assert("°/s"@.len() == 3);
            assert("kt"@.len() == 2);
            assert("°/s"@ != "kt"@);
            assert("°C"@[0] == '°');
            assert("kt"@[0] == 'k');
            assert("°C"@ != "kt"@);
            assert("FL"@[0] == 'F');
            assert("kt"@[0] == 'k');
            assert("FL"@ != "kt"@);
            assert("MHz"@.len() == 3);
            assert("kt"@.len() == 2);
            assert("MHz"@ != "kt"@);
            assert("m"@.len() == 1);
            assert("kt"@.len() == 2);
            assert("m"@ != "kt"@);
            assert("km"@[1] == 'm');
            assert("kt"@[1] == 't');
            assert("km"@ != "kt"@);
            assert("m/s"@.len() == 3);
            assert("kt"@.len() == 2);
            assert("m/s"@ != "kt"@);
            assert("m/s2"@.len() == 4);
            assert("kt"@.len() == 2);
            assert("m/s2"@ != "kt"@);
            assert("Mach"@.len() == 4);
            assert("kt"@.len() == 2);
            assert("Mach"@ != "kt"@);
            assert("NM"@[0] == 'N');
            assert("kt"@[0] == 'k');
            assert("NM"@ != "kt"@);
        },
        Unit::NauticalMilePerSecond => {
            reveal_strlit("");
            reveal_strlit("%");
            reveal_strlit("s");
            reveal_strlit("ms");
            reveal_strlit("ns");
            reveal_strlit("fs");
            reveal_strlit("°");
            reveal_strlit("°/s");
            reveal_strlit("°C");
            reveal_strlit("FL");
            reveal_strlit("MHz");
            reveal_strlit("m");
            reveal_strlit("km");
            reveal_strlit("m/s");
            reveal_strlit("m/s2");
            reveal_strlit("Mach");
            reveal_strlit("NM");
            reveal_strlit("kt");
            reveal_strlit("NM/s");
            assert(""@.len() == 0);
            assert("NM/s"@.len() == 4);
            assert(""@ != "NM/s"@);
            assert("%"@.len() == 1);
            assert("NM/s"@.len() == 4);
            assert("%"@ != "NM/s"@);
            assert("s"@.len() == 1);
            assert("NM/s"@.len() == 4);
            assert("s"@ != "NM/s"@);
            assert("ms"@.len() == 2);
            assert("NM/s"@.len() == 4);
            assert("ms"@ != "NM/s"@);
            assert("ns"@.len() == 2);
            assert("NM/s"@.len() == 4);
            assert("ns"@ != "NM/s"@);
            assert("fs"@.len() == 2);
            assert("NM/s"@.len() == 4);
            assert("fs"@ != "NM/s"@);
            assert("°"@.len() == 1);
            assert("NM/s"@.len() == 4);
            assert("°"@ != "NM/s"@);
            assert("°/s"@.len() == 3);
            assert("NM/s"@.len() == 4);
            assert("°/s"@ != "NM/s"@);
            assert("°C"@.len() == 2);
            assert("NM/s"@.len() == 4);
            assert("°C"@ != "NM/s"@);
            assert("FL"@.len() == 2);
            assert("NM/s"@.len() == 4);
            assert("FL"@ != "NM/s"@);
            assert("MHz"@.len() == 3);
            assert("NM/s"@.len() == 4);
            assert("MHz"@ != "NM/s"@);
            assert("m"@.len() == 1);
            assert("NM/s"@.len() == 4);
            assert("m"@ != "NM/s"@);
            assert("km"@.len() == 2);
            assert("NM/s"@.len() == 4);
            assert("km"@ != "NM/s"@);
            assert("m/s"@.len() == 3);
            assert("NM/s"@.len() == 4);
            assert("m/s"@ != "NM/s"@);
            assert("m/s2"@[0] == 'm');
            assert("NM/s"@[0] == 'N');
            assert("m/s2"@ != "NM/s"@);
            assert("Mach"@[0] == 'M');
            assert("NM/s"@[0] == 'N');
            assert("Mach"@ != "NM/s"@);
            assert("NM"@.len() == 2);
            assert("NM/s"@.len() == 4);
            assert("NM"@ != "NM/s"@);
            assert("kt"@.len() == 2);
            assert("NM/s"@.len() == 4);
            assert("kt"@ != "NM/s"@);
        },
        Unit::Feet => {
            reveal_strlit("");
            reveal_strlit("%");
            reveal_strlit("s");
            reveal_strlit("ms");
            reveal_strlit("ns");
            reveal_strlit("fs");
            reveal_strlit("°");
            reveal_strlit("°/s");
            reveal_strlit("°C");
            reveal_strlit("FL");
            reveal_strlit("MHz");
            reveal_strlit("m");
            reveal_strlit("km");
            reveal_strlit("m/s");
            reveal_strlit("m/s2");
            reveal_strlit("Mach");
            reveal_strlit("NM");
            reveal_strlit("kt");
            reveal_strlit("NM/s");
            reveal_strlit("ft");
            assert(""@.len() == 0);
            assert("ft"@.len() == 2);
            assert(""@ != "ft"@);
            assert("%"@.len() == 1);
            assert("ft"@.len() == 2);
            assert("%"@ != "ft"@);
            assert("s"@.len() == 1);
            assert("ft"@.len() == 2);
            assert("s"@ != "ft"@);
            assert("ms"@[0] == 'm');
            assert("ft"@[0] == 'f');
            assert("ms"@ != "ft"@);
            assert("ns"@[0] == 'n');
            assert("ft"@[0] == 'f');
            assert("ns"@ != "ft"@);
            assert("fs"@[1] == 's');
            assert("ft"@[1] == 't');
            assert("fs"@ != "ft"@);
            assert("°"@.len() == 1);
            assert("ft"@.len() == 2);
            assert("°"@ != "ft"@);
            assert("°/s"@.len() == 3);
            assert("ft"@.len() == 2);
            assert("°/s"@ != "ft"@);
            assert("°C"@[0] == '°');
            assert("ft"@[0] == 'f');
            assert("°C"@ != "ft"@);
            assert("FL"@[0] == 'F');
            assert("ft"@[0] == 'f');
            assert("FL"@ != "ft"@);
            assert("MHz"@.len() == 3);
            assert("ft"@.len() == 2);
            assert("MHz"@ != "ft"@);
            assert("m"@.len() == 1);
            assert("ft"@.len() == 2);
            assert("m"@ != "ft"@);
            assert("km"@[0] == 'k');
            assert("ft"@[0] == 'f');
            assert("km"@ != "ft"@);
            assert("m/s"@.len() == 3);
            assert("ft"@.len() == 2);
            assert("m/s"@ != "ft"@);
            assert("m/s2"@.len() == 4);
            assert("ft"@.len() == 2);
            assert("m/s2"@ != "ft"@);
            assert("Mach"@.len() == 4);
            assert("ft"@.len() == 2);
            assert("Mach"@ != "ft"@);
            assert("NM"@[0] == 'N');
            assert("ft"@[0] == 'f');
            assert("NM"@ != "ft"@);
            assert("kt"@[0] == 'k');
            assert("ft"@[0] == 'f');
            assert("kt"@ != "ft"@);
            assert("NM/s"@.len() == 4);
            assert("ft"@.len() == 2);
            assert("NM/s"@ != "ft"@);
        },
        Unit::FeetPerMinute => {
            reveal_strlit("");
            reveal_strlit("%");
            reveal_strlit("s");
            reveal_strlit("ms");
            reveal_strlit("ns");
            reveal_strlit("fs");
            reveal_strlit("°");
            reveal_strlit("°/s");
            reveal_strlit("°C");
            reveal_strlit("FL");
            reveal_strlit("MHz");
            reveal_strlit("m");
            reveal_strlit("km");
            reveal_strlit("m/s");
            reveal_strlit("m/s2");
            reveal_strlit("Mach");
            reveal_strlit("NM");
            reveal_strlit("kt");
            reveal_strlit("NM/s");
            reveal_strlit("ft");
            reveal_strlit("ft/min");
            assert(""@.len() == 0);
            assert("ft/min"@.len() == 6);
            assert(""@ != "ft/min"@);
            assert("%"@.len() == 1);
            assert("ft/min"@.len() == 6);
            assert("%"@ != "ft/min"@);
            assert("s"@.len() == 1);
            assert("ft/min"@.len() == 6);
            assert("s"@ != "ft/min"@);
            assert("ms"@.len() == 2);
            assert("ft/min"@.len() == 6);
            assert("ms"@ != "ft/min"@);
            assert("ns"@.len() == 2);
            assert("ft/min"@.len() == 6);
            assert("ns"@ != "ft/min"@);
            assert("fs"@.len() == 2);
            assert("ft/min"@.len() == 6);
            assert("fs"@ != "ft/min"@);
            assert("°"@.len() == 1);
            assert("ft/min"@.len() == 6);
            assert("°"@ != "ft/min"@);
            assert("°/s"@.len() == 3);
            assert("ft/min"@.len() == 6);
            assert("°/s"@ != "ft/min"@);
            assert("°C"@.len() == 2);
            assert("ft/min"@.len() == 6);
            assert("°C"@ != "ft/min"@);
            assert("FL"@.len() == 2);
            assert("ft/min"@.len() == 6);
            assert("FL"@ != "ft/min"@);
            assert("MHz"@.len() == 3);
            assert("ft/min"@.len() == 6);
            assert("MHz"@ != "ft/min"@);
            assert("m"@.len() == 1);
            assert("ft/min"@.len() == 6);
            assert("m"@ != "ft/min"@);
            assert("km"@.len() == 2);
            assert("ft/min"@.len() == 6);
            assert("km"@ != "ft/min"@);
            assert("m/s"@.len() == 3);
            assert("ft/min"@.len() == 6);
            assert("m/s"@ != "ft/min"@);
            assert("m/s2"@.len() == 4);
            assert("ft/min"@.len() == 6);
            assert("m/s2"@ != "ft/min"@);
            assert("Mach"@.len() == 4);
            assert("ft/min"@.len() == 6);
            assert("Mach"@ != "ft/min"@);
            assert("NM"@.len() == 2);
            assert("ft/min"@.len() == 6);
            assert("NM"@ != "ft/min"@);
            assert("kt"@.len() == 2);
            assert("ft/min"@.len() == 6);
            assert("kt"@ != "ft/min"@);
            assert("NM/s"@.len() == 4);
            assert("ft/min"@.len() == 6);
            assert("NM/s"@ != "ft/min"@);
            assert("ft"@.len() == 2);
            assert("ft/min"@.len() == 6);
            assert("ft"@ != "ft/min"@);
        },
        Unit::HectoPascal => {
            reveal_strlit("");
            reveal_strlit("%");
            reveal_strlit("s");
            reveal_strlit("ms");
            reveal_strlit("ns");
            reveal_strlit("fs");
            reveal_strlit("°");
            reveal_strlit("°/s");
            reveal_strlit("°C");
            reveal_strlit("FL");
            reveal_strlit("MHz");
            reveal_strlit("m");
            reveal_strlit("km");
            reveal_strlit("m/s");
            reveal_strlit("m/s2");
            reveal_strlit("Mach");
            reveal_strlit("NM");
            reveal_strlit("kt");
            reveal_strlit("NM/s");
            reveal_strlit("ft");
            reveal_strlit("ft/min");
            reveal_strlit("hPa");
            assert(""@.len() == 0);
            assert("hPa"@.len() == 3);
            assert(""@ != "hPa"@);
            assert("%"@.len() == 1);
            assert("hPa"@.len() == 3);
            assert("%"@ != "hPa"@);
            assert("s"@.len() == 1);
            assert("hPa"@.len() == 3);
            assert("s"@ != "hPa"@);
            assert("ms"@.len() == 2);
            assert("hPa"@.len() == 3);
            assert("ms"@ != "hPa"@);
            assert("ns"@.len() == 2);
            assert("hPa"@.len() == 3);
            assert("ns"@ != "hPa"@);
            assert("fs"@.len() == 2);
            assert("hPa"@.len() == 3);
            assert("fs"@ != "hPa"@);
            assert("°"@.len() == 1);
            assert("hPa"@.len() == 3);
            assert("°"@ != "hPa"@);
            assert("°/s"@[0] == '°');
            assert("hPa"@[0] == 'h');
            assert("°/s"@ != "hPa"@);
            assert("°C"@.len() == 2);
            assert("hPa"@.len() == 3);
            assert("°C"@ != "hPa"@);
            assert("FL"@.len() == 2);
            assert("hPa"@.len() == 3);
            assert("FL"@ != "hPa"@);
            assert("MHz"@[0] == 'M');
            assert("hPa"@[0] == 'h');
            assert("MHz"@ != "hPa"@);
            assert("m"@.len() == 1);
            assert("hPa"@.len() == 3);
            assert("m"@ != "hPa"@);
            assert("km"@.len() == 2);
            assert("hPa"@.len() == 3);
            assert("km"@ != "hPa"@);
            assert("m/s"@[0] == 'm');
            assert("hPa"@[0] == 'h');
            assert("m/s"@ != "hPa"@);
            assert("m/s2"@.len() == 4);
            assert("hPa"@.len() == 3);
            assert("m/s2"@ != "hPa"@);
            assert("Mach"@.len() == 4);
            assert("hPa"@.len() == 3);
            assert("Mach"@ != "hPa"@);
            assert("NM"@.len() == 2);
            assert("hPa"@.len() == 3);
            assert("NM"@ != "hPa"@);
            assert("kt"@.len() == 2);
            assert("hPa"@.len() == 3);
            assert("kt"@ != "hPa"@);
            assert("NM/s"@.len() == 4);
            assert("hPa"@.len() == 3);
            assert("NM/s"@ != "hPa"@);
            assert("ft"@.len() == 2);
            assert("hPa"@.len() == 3);
            assert("ft"@ != "hPa"@);
            assert("ft/min"@.len() == 6);
            assert("hPa"@.len() == 3);
            assert("ft/min"@ != "hPa"@);
        },
        Unit::Millibar => {
            reveal_strlit("");
            reveal_strlit("%");
            reveal_strlit("s");
            reveal_strlit("ms");
            reveal_strlit("ns");
            reveal_strlit("fs");
            reveal_strlit("°");
            reveal_strlit("°/s");
            reveal_strlit("°C");
            reveal_strlit("FL");
            reveal_strlit("MHz");
            reveal_strlit("m");
            reveal_strlit("km");
            reveal_strlit("m/s");
            reveal_strlit("m/s2");
            reveal_strlit("Mach");
            reveal_strlit("NM");
            reveal_strlit("kt");
            reveal_strlit("NM/s");
            reveal_strlit("ft");
            reveal_strlit("ft/min");
            reveal_strlit("hPa");
            reveal_strlit("mb");
            assert(""@.len() == 0);
            assert("mb"@.len() == 2);
            assert(""@ != "mb"@);
            assert("%"@.len() == 1);
            assert("mb"@.len() == 2);
            assert("%"@ != "mb"@);
            assert("s"@.len() == 1);
            assert("mb"@.len() == 2);
            assert("s"@ != "mb"@);
            assert("ms"@[1] == 's');
            assert("mb"@[1] == 'b');
            assert("ms"@ != "mb"@);
            assert("ns"@[0] == 'n');
            assert("mb"@[0] == 'm');
            assert("ns"@ != "mb"@);
            assert("fs"@[0] == 'f');
            assert("mb"@[0] == 'm');
            assert("fs"@ != "mb"@);
            assert("°"@.len() == 1);
            assert("mb"@.len() == 2);
            assert("°"@ != "mb"@);
            assert("°/s"@.len() == 3);
            assert("mb"@.len() == 2);
            assert("°/s"@ != "mb"@);
            assert("°C"@[0] == '°');
            assert("mb"@[0] == 'm');
            assert("°C"@ != "mb"@);
            assert("FL"@[0] == 'F');
            assert("mb"@[0] == 'm');
            assert("FL"@ != "mb"@);
            assert("MHz"@.len() == 3);
            assert("mb"@.len() == 2);
            assert("MHz"@ != "mb"@);
            assert("m"@.len() == 1);
            assert("mb"@.len() == 2);
            assert("m"@ != "mb"@);
            assert("km"@[0] == 'k');
            assert("mb"@[0] == 'm');
            assert("km"@ != "mb"@);
            assert("m/s"@.len() == 3);
            assert("mb"@.len() == 2);
            assert("m/s"@ != "mb"@);
            assert("m/s2"@.len() == 4);
            assert("mb"@.len() == 2);
            assert("m/s2"@ != "mb"@);
            assert("Mach"@.len() == 4);
            assert("mb"@.len() == 2);
            assert("Mach"@ != "mb"@);
            assert("NM"@[0] == 'N');
            assert("mb"@[0] == 'm');
            assert("NM"@ != "mb"@);
            assert("kt"@[0] == 'k');
            assert("mb"@[0] == 'm');
            assert("kt"@ != "mb"@);
            assert("NM/s"@.len() == 4);
            assert("mb"@.len() == 2);
            assert("NM/s"@ != "mb"@);
            assert("ft"@[0] == 'f');
            assert("mb"@[0] == 'm');
            assert("ft"@ != "mb"@);
            assert("ft/min"@.len() == 6);
            assert("mb"@.len() == 2);
            assert("ft/min"@ != "mb"@);
            assert("hPa"@.len() == 3);
            assert("mb"@.len() == 2);
            assert("hPa"@ != "mb"@);
        },
        Unit::dB => {
            reveal_strlit("");
            reveal_strlit("%");
            reveal_strlit("s");
            reveal_strlit("ms");
            reveal_strlit("ns");
            reveal_strlit("fs");
            reveal_strlit("°");
            reveal_strlit("°/s");
            reveal_strlit("°C");
            reveal_strlit("FL");
            reveal_strlit("MHz");
            reveal_strlit("m");
            reveal_strlit("km");
            reveal_strlit("m/s");
            reveal_strlit("m/s2");
            reveal_strlit("Mach");
            reveal_strlit("NM");
            reveal_strlit("kt");
            reveal_strlit("NM/s");
            reveal_strlit("ft");
            reveal_strlit("ft/min");
            reveal_strlit("hPa");
            reveal_strlit("mb");
            reveal_strlit("dB");
            assert(""@.len() == 0);
            assert("dB"@.len() == 2);
            assert(""@ != "dB"@);
            assert("%"@.len() == 1);
            assert("dB"@.len() == 2);
            assert("%"@ != "dB"@);
            assert("s"@.len() == 1);
            assert("dB"@.len() == 2);
            assert("s"@ != "dB"@);
            assert("ms"@[0] == 'm');
            assert("dB"@[0] == 'd');
            assert("ms"@ != "dB"@);
            assert("ns"@[0] == 'n');
            assert("dB"@[0] == 'd');
            assert("ns"@ != "dB"@);
            assert("fs"@[0] == 'f');
            assert("dB"@[0] == 'd');
            assert("fs"@ != "dB"@);
            assert("°"@.len() == 1);
            assert("dB"@.len() == 2);
            assert("°"@ != "dB"@);
            assert("°/s"@.len() == 3);
            assert("dB"@.len() == 2);
            assert("°/s"@ != "dB"@);
            assert("°C"@[0] == '°');
            assert("dB"@[0] == 'd');
            assert("°C"@ != "dB"@);
            assert("FL"@[0] == 'F');
            assert("dB"@[0] == 'd');
            assert("FL"@ != "dB"@);
            assert("MHz"@.len() == 3);
            assert("dB"@.len() == 2);
            assert("MHz"@ != "dB"@);
            assert("m"@.len() == 1);
            assert("dB"@.len() == 2);
            assert("m"@ != "dB"@);
            assert("km"@[0] == 'k');
            assert("dB"@[0] == 'd');
            assert("km"@ != "dB"@);
            assert("m/s"@.len() == 3);
            assert("dB"@.len() == 2);
            assert("m/s"@ != "dB"@);
            assert("m/s2"@.len() == 4);
            assert("dB"@.len() == 2);
            assert("m/s2"@ != "dB"@);
            assert("Mach"@.len() == 4);
            assert("dB"@.len() == 2);
            assert("Mach"@ != "dB"@);
            assert("NM"@[0] == 'N');
            assert("dB"@[0] == 'd');
            assert("NM"@ != "dB"@);
            assert("kt"@[0] == 'k');
            assert("dB"@[0] == 'd');
            assert("kt"@ != "dB"@);
            assert("NM/s"@.len() == 4);
            assert("dB"@.len() == 2);
            assert("NM/s"@ != "dB"@);
            assert("ft"@[0] == 'f');
            assert("dB"@[0] == 'd');
            assert("ft"@ != "dB"@);
            assert("ft/min"@.len() == 6);
            assert("dB"@.len() == 2);
            assert("ft/min"@ != "dB"@);
            assert("hPa"@.len() == 3);
            assert("dB"@.len() == 2);
            assert("hPa"@ != "dB"@);
            assert("mb"@[0] == 'm');
            assert("dB"@[0] == 'd');
            assert("mb"@ != "dB"@);
        },
        Unit::dBm => {
            reveal_strlit("");
            reveal_strlit("%");
            reveal_strlit("s");
            reveal_strlit("ms");
            reveal_strlit("ns");
            reveal_strlit("fs");
            reveal_strlit("°");
            reveal_strlit("°/s");
            reveal_strlit("°C");
            reveal_strlit("FL");
            reveal_strlit("MHz");
            reveal_strlit("m");
            reveal_strlit("km");
            reveal_strlit("m/s");
            reveal_strlit("m/s2");
            reveal_strlit("Mach");
            reveal_strlit("NM");
            reveal_strlit("kt");
            reveal_strlit("NM/s");
            reveal_strlit("ft");
            reveal_strlit("ft/min");
            reveal_strlit("hPa");
            reveal_strlit("mb");
            reveal_strlit("dB");
            reveal_strlit("dBm");
            assert(""@.len() == 0);
            assert("dBm"@.len() == 3);
            assert(""@ != "dBm"@);
            assert("%"@.len() == 1);
            assert("dBm"@.len() == 3);
            assert("%"@ != "dBm"@);
            assert("s"@.len() == 1);
            assert("dBm"@.len() == 3);
            assert("s"@ != "dBm"@);
            assert("ms"@.len() == 2);
            assert("dBm"@.len() == 3);
            assert("ms"@ != "dBm"@);
            assert("ns"@.len() == 2);
            assert("dBm"@.len() == 3);
            assert("ns"@ != "dBm"@);
            assert("fs"@.len() == 2);
            assert("dBm"@.len() == 3);
            assert("fs"@ != "dBm"@);
            assert("°"@.len() == 1);
            assert("dBm"@.len() == 3);
            assert("°"@ != "dBm"@);
            assert("°/s"@[0] == '°');
            assert("dBm"@[0] == 'd');
            assert("°/s"@ != "dBm"@);
            assert("°C"@.len() == 2);
            assert("dBm"@.len() == 3);
            assert("°C"@ != "dBm"@);
            assert("FL"@.len() == 2);
            assert("dBm"@.len() == 3);
            assert("FL"@ != "dBm"@);
            assert("MHz"@[0] == 'M');
            assert("dBm"@[0] == 'd');
            assert("MHz"@ != "dBm"@);
            assert("m"@.len() == 1);
            assert("dBm"@.len() == 3);
            assert("m"@ != "dBm"@);
            assert("km"@.len() == 2);
            assert("dBm"@.len() == 3);
            assert("km"@ != "dBm"@);
            assert("m/s"@[0] == 'm');
            assert("dBm"@[0] == 'd');
            assert("m/s"@ != "dBm"@);
            assert("m/s2"@.len() == 4);
            assert("dBm"@.len() == 3);
            assert("m/s2"@ != "dBm"@);
            assert("Mach"@.len() == 4);
            assert("dBm"@.len() == 3);
            assert("Mach"@ != "dBm"@);
            assert("NM"@.len() == 2);
            assert("dBm"@.len() == 3);
            assert("NM"@ != "dBm"@);
            assert("kt"@.len() == 2);
            assert("dBm"@.len() == 3);
            assert("kt"@ != "dBm"@);
            assert("NM/s"@.len() == 4);
            assert("dBm"@.len() == 3);
            assert("NM/s"@ != "dBm"@);
            assert("ft"@.len() == 2);
            assert("dBm"@.len() == 3);
            assert("ft"@ != "dBm"@);
            assert("ft/min"@.len() == 6);
            assert("dBm"@.len() == 3);
            assert("ft/min"@ != "dBm"@);
            assert("hPa"@[0] == 'h');
            assert("dBm"@[0] == 'd');
            assert("hPa"@ != "dBm"@);
            assert("mb"@.len() == 2);
            assert("dBm"@.len() == 3);
            assert("mb"@ != "dBm"@);
            assert("dB"@.len() == 2);
            assert("dBm"@.len() == 3);
            assert("dB"@ != "dBm"@);
        },
        Unit::dBuV => {
            reveal_strlit("");
            reveal_strlit("%");
            reveal_strlit("s");
            reveal_strlit("ms");
            reveal_strlit("ns");
            reveal_strlit("fs");
            reveal_strlit("°");
            reveal_strlit("°/s");
            reveal_strlit("°C");
            reveal_strlit("FL");
            reveal_strlit("MHz");
            reveal_strlit("m");
            reveal_strlit("km");
            reveal_strlit("m/s");
            reveal_strlit("m/s2");
            reveal_strlit("Mach");
            reveal_strlit("NM");
            reveal_strlit("kt");
            reveal_strlit("NM/s");
            reveal_strlit("ft");
            reveal_strlit("ft/min");
            reveal_strlit("hPa");
            reveal_strlit("mb");
            reveal_strlit("dB");
            reveal_strlit("dBm");
            reveal_strlit("*2^(-6+f)");
            reveal_strlit("* 2^(-6+f)");
            reveal_strlit("* 2^(-7+f)");
            reveal_strlit("*10E-5");
            reveal_strlit("dBuV");
            assert(""@.len() == 0);
            assert("dBuV"@.len() == 4);
            assert(""@ != "dBuV"@);
            assert("%"@.len() == 1);
            assert("dBuV"@.len() == 4);
            assert("%"@ != "dBuV"@);
            assert("s"@.len() == 1);
            assert("dBuV"@.len() == 4);
            assert("s"@ != "dBuV"@);
            assert("ms"@.len() == 2);
            assert("dBuV"@.len() == 4);
            assert("ms"@ != "dBuV"@);
            assert("ns"@.len() == 2);
            assert("dBuV"@.len() == 4);
            assert("ns"@ != "dBuV"@);
            assert("fs"@.len() == 2);
            assert("dBuV"@.len() == 4);
            assert("fs"@ != "dBuV"@);
            assert("°"@.len() == 1);
            assert("dBuV"@.len() == 4);
            assert("°"@ != "dBuV"@);
            assert("°/s"@.len() == 3);
            assert("dBuV"@.len() == 4);
            assert("°/s"@ != "dBuV"@);
            assert("°C"@.len() == 2);
            assert("dBuV"@.len() == 4);
            assert("°C"@ != "dBuV"@);
            assert("FL"@.len() == 2);
            assert("dBuV"@.len() == 4);
            assert("FL"@ != "dBuV"@);
            assert("MHz"@.len() == 3);
            assert("dBuV"@.len() == 4);
            assert("MHz"@ != "dBuV"@);
            assert("m"@.len() == 1);
            assert("dBuV"@.len() == 4);
            assert("m"@ != "dBuV"@);
            assert("km"@.len() == 2);
            assert("dBuV"@.len() == 4);
            assert("km"@ != "dBuV"@);
            assert("m/s"@.len() == 3);
            assert("dBuV"@.len() == 4);
            assert("m/s"@ != "dBuV"@);
            assert("m/s2"@[0] == 'm');
            assert("dBuV"@[0] == 'd');
            assert("m/s2"@ != "dBuV"@);
            assert("Mach"@[0] == 'M');
            assert("dBuV"@[0] == 'd');
            assert("Mach"@ != "dBuV"@);
            assert("NM"@.len() == 2);
            assert("dBuV"@.len() == 4);
            assert("NM"@ != "dBuV"@);
            assert("kt"@.len() == 2);
            assert("dBuV"@.len() == 4);
            assert("kt"@ != "dBuV"@);
            assert("NM/s"@[0] == 'N');
            assert("dBuV"@[0] == 'd');
            assert("NM/s"@ != "dBuV"@);
            assert("ft"@.len() == 2);
            assert("dBuV"@.len() == 4);
            assert("ft"@ != "dBuV"@);
            assert("ft/min"@.len() == 6);
            assert("dBuV"@.len() == 4);
            assert("ft/min"@ != "dBuV"@);
            assert("hPa"@.len() == 3);
            assert("dBuV"@.len() == 4);
            assert("hPa"@ != "dBuV"@);
            assert("mb"@.len() == 2);
            assert("dBuV"@.len() == 4);
            assert("mb"@ != "dBuV"@);
            assert("dB"@.len() == 2);
            assert("dBuV"@.len() == 4);
            assert("dB"@ != "dBuV"@);
            assert("dBm"@.len() == 3);
            assert("dBuV"@.len() == 4);
            assert("dBm"@ != "dBuV"@);
            assert("*2^(-6+f)"@.len() == 9);
            assert("dBuV"@.len() == 4);
            assert("*2^(-6+f)"@ != "dBuV"@);
            assert("* 2^(-6+f)"@.len() == 10);
            assert("dBuV"@.len() == 4);
            assert("* 2^(-6+f)"@ != "dBuV"@);
            assert("* 2^(-7+f)"@.len() == 10);
            assert("dBuV"@.len() == 4);
            assert("* 2^(-7+f)"@ != "dBuV"@);
            assert("*10E-5"@.len() == 6);
            assert("dBuV"@.len() == 4);
            assert("*10E-5"@ != "dBuV"@);
        },
        Unit::Minute => {
            reveal_strlit("");
            reveal_strlit("%");
            reveal_strlit("s");
            reveal_strlit("ms");
            reveal_strlit("ns");
            reveal_strlit("fs");
            reveal_strlit("°");
            reveal_strlit("°/s");
            reveal_strlit("°C");
            reveal_strlit("FL");
            reveal_strlit("MHz");
            reveal_strlit("m");
            reveal_strlit("km");
            reveal_strlit("m/s");
            reveal_strlit("m/s2");
            reveal_strlit("Mach");
            reveal_strlit("NM");
            reveal_strlit("kt");
            reveal_strlit("NM/s");
            reveal_strlit("ft");
            reveal_strlit("ft/min");
            reveal_strlit("hPa");
            reveal_strlit("mb");
            reveal_strlit("dB");
            reveal_strlit("dBm");
            reveal_strlit("*2^(-6+f)");
            reveal_strlit("* 2^(-6+f)");
            reveal_strlit("* 2^(-7+f)");
            reveal_strlit("*10E-5");
            reveal_strlit("dBuV");
            reveal_strlit("min");
            assert(""@.len() == 0);
            assert("min"@.len() == 3);
            assert(""@ != "min"@);
            assert("%"@.len() == 1);
            assert("min"@.len() == 3);
            assert("%"@ != "min"@);
            assert("s"@.len() == 1);
            assert("min"@.len() == 3);
            assert("s"@ != "min"@);
            assert("ms"@.len() == 2);
            assert("min"@.len() == 3);
            assert("ms"@ != "min"@);
            assert("ns"@.len() == 2);
            assert("min"@.len() == 3);
            assert("ns"@ != "min"@);
            assert("fs"@.len() == 2);
            assert("min"@.len() == 3);
            assert("fs"@ != "min"@);
            assert("°"@.len() == 1);
            assert("min"@.len() == 3);
            assert("°"@ != "min"@);
            assert("°/s"@[0] == '°');
            assert("min"@[0] == 'm');
            assert("°/s"@ != "min"@);
            assert("°C"@.len() == 2);
            assert("min"@.len() == 3);
            assert("°C"@ != "min"@);
            assert("FL"@.len() == 2);
            assert("min"@.len() == 3);
            assert("FL"@ != "min"@);
            assert("MHz"@[0] == 'M');
            assert("min"@[0] == 'm');
            assert("MHz"@ != "min"@);
            assert("m"@.len() == 1);
            assert("min"@.len() == 3);
            assert("m"@ != "min"@);
            assert("km"@.len() == 2);
            assert("min"@.len() == 3);
            assert("km"@ != "min"@);
            assert("m/s"@[1] == '/');
            assert("min"@[1] == 'i');
            assert("m/s"@ != "min"@);
            assert("m/s2"@.len() == 4);
            assert("min"@.len() == 3);
            assert("m/s2"@ != "min"@);
            assert("Mach"@.len() == 4);
            assert("min"@.len() == 3);
            assert("Mach"@ != "min"@);
            assert("NM"@.len() == 2);
            assert("min"@.len() == 3);
            assert("NM"@ != "min"@);
            assert("kt"@.len() == 2);
            assert("min"@.len() == 3);
            assert("kt"@ != "min"@);
            assert("NM/s"@.len() == 4);
            assert("min"@.len() == 3);
            assert("NM/s"@ != "min"@);
            assert("ft"@.len() == 2);
            assert("min"@.len() == 3);
            assert("ft"@ != "min"@);
            assert("ft/min"@.len() == 6);
            assert("min"@.len() == 3);
            assert("ft/min"@ != "min"@);
            assert("hPa"@[0] == 'h');
            assert("min"@[0] == 'm');
            assert("hPa"@ != "min"@);
            assert("mb"@.len() == 2);
            assert("min"@.len() == 3);
            assert("mb"@ != "min"@);
            assert("dB"@.len() == 2);
            assert("min"@.len() == 3);
            assert("dB"@ != "min"@);
            assert("dBm"@[0] == 'd');
            assert("min"@[0] == 'm');
            assert("dBm"@ != "min"@);
            assert("*2^(-6+f)"@.len() == 9);
            assert("min"@.len() == 3);
            assert("*2^(-6+f)"@ != "min"@);
            assert("* 2^(-6+f)"@.len() == 10);
            assert("min"@.len() == 3);
            assert("* 2^(-6+f)"@ != "min"@);
            assert("* 2^(-7+f)"@.len() == 10);
            assert("min"@.len() == 3);
            assert("* 2^(-7+f)"@ != "min"@);
            assert("*10E-5"@.len() == 6);
            assert("min"@.len() == 3);
            assert("*10E-5"@ != "min"@);
            assert("dBuV"@.len() == 4);
            assert("min"@.len() == 3);
            assert("dBuV"@ != "min"@);
        },
        Unit::KBytesPerSecond => {
            reveal_strlit("");
            reveal_strlit("%");
            reveal_strlit("s");
            reveal_strlit("ms");
            reveal_strlit("ns");
            reveal_strlit("fs");
            reveal_strlit("°");
            reveal_strlit("°/s");
            reveal_strlit("°C");
            reveal_strlit("FL");
            reveal_strlit("MHz");
            reveal_strlit("m");
            reveal_strlit("km");
            reveal_strlit("m/s");
            reveal_strlit("m/s2");
            reveal_strlit("Mach");
            reveal_strlit("NM");
            reveal_strlit("kt");
            reveal_strlit("NM/s");
            reveal_strlit("ft");
            reveal_strlit("ft/min");
            reveal_strlit("hPa");
            reveal_strlit("mb");
            reveal_strlit("dB");
            reveal_strlit("dBm");
            reveal_strlit("*2^(-6+f)");
            reveal_strlit("* 2^(-6+f)");
            reveal_strlit("* 2^(-7+f)");
            reveal_strlit("*10E-5");
            reveal_strlit("dBuV");
            reveal_strlit("min");
            reveal_strlit("KBytes/s");
            assert(""@.len() == 0);
            assert("KBytes/s"@.len() == 8);
            assert(""@ != "KBytes/s"@);
            assert("%"@.len() == 1);
            assert("KBytes/s"@.len() == 8);
            assert("%"@ != "KBytes/s"@);
            assert("s"@.len() == 1);
            assert("KBytes/s"@.len() == 8);
            assert("s"@ != "KBytes/s"@);
            assert("ms"@.len() == 2);
            assert("KBytes/s"@.len() == 8);
            assert("ms"@ != "KBytes/s"@);
            assert("ns"@.len() == 2);
            assert("KBytes/s"@.len() == 8);
            assert("ns"@ != "KBytes/s"@);
            assert("fs"@.len() == 2);
            assert("KBytes/s"@.len() == 8);
            assert("fs"@ != "KBytes/s"@);
            assert("°"@.len() == 1);
            assert("KBytes/s"@.len() == 8);
            assert("°"@ != "KBytes/s"@);
            assert("°/s"@.len() == 3);
            assert("KBytes/s"@.len() == 8);
            assert("°/s"@ != "KBytes/s"@);
            assert("°C"@.len() == 2);
            assert("KBytes/s"@.len() == 8);
            assert("°C"@ != "KBytes/s"@);
            assert("FL"@.len() == 2);
            assert("KBytes/s"@.len() == 8);
            assert("FL"@ != "KBytes/s"@);
            assert("MHz"@.len() == 3);
            assert("KBytes/s"@.len() == 8);
            assert("MHz"@ != "KBytes/s"@);
            assert("m"@.len() == 1);
            assert("KBytes/s"@.len() == 8);
            assert("m"@ != "KBytes/s"@);
            assert("km"@.len() == 2);
            assert("KBytes/s"@.len() == 8);
            assert("km"@ != "KBytes/s"@);
            assert("m/s"@.len() == 3);
            assert("KBytes/s"@.len() == 8);
            assert("m/s"@ != "KBytes/s"@);
            assert("m/s2"@.len() == 4);
            assert("KBytes/s"@.len() == 8);
            assert("m/s2"@ != "KBytes/s"@);
            assert("Mach"@.len() == 4);
            assert("KBytes/s"@.len() == 8);
            assert("Mach"@ != "KBytes/s"@);
            assert("NM"@.len() == 2);
            assert("KBytes/s"@.len() == 8);
            assert("NM"@ != "KBytes/s"@);
            assert("kt"@.len() == 2);
            assert("KBytes/s"@.len() == 8);
            assert("kt"@ != "KBytes/s"@);
            assert("NM/s"@.len() == 4);
            assert("KBytes/s"@.len() == 8);
            assert("NM/s"@ != "KBytes/s"@);
            assert("ft"@.len() == 2);
            assert("KBytes/s"@.len() == 8);
            assert("ft"@ != "KBytes/s"@);
            assert("ft/min"@.len() == 6);
            assert("KBytes/s"@.len() == 8);
            assert("ft/min"@ != "KBytes/s"@);
            assert("hPa"@.len() == 3);
            assert("KBytes/s"@.len() == 8);
            assert("hPa"@ != "KBytes/s"@);
            assert("mb"@.len() == 2);
            assert("KBytes/s"@.len() == 8);
            assert("mb"@ != "KBytes/s"@);
            assert("dB"@.len() == 2);
            assert("KBytes/s"@.len() == 8);
            assert("dB"@ != "KBytes/s"@);
            assert("dBm"@.len() == 3);
            assert("KBytes/s"@.len() == 8);
            assert("dBm"@ != "KBytes/s"@);
            assert("*2^(-6+f)"@.len() == 9);
            assert("KBytes/s"@.len() == 8);
            assert("*2^(-6+f)"@ != "KBytes/s"@);
            assert("* 2^(-6+f)"@.len() == 10);
            assert("KBytes/s"@.len() == 8);
            assert("* 2^(-6+f)"@ != "KBytes/s"@);
            assert("* 2^(-7+f)"@.len() == 10);
            assert("KBytes/s"@.len() == 8);
            assert("* 2^(-7+f)"@ != "KBytes/s"@);
            assert("*10E-5"@.len() == 6);
            assert("KBytes/s"@.len() == 8);
            assert("*10E-5"@ != "KBytes/s"@);
            assert("dBuV"@.len() == 4);
            assert("KBytes/s"@.len() == 8);
            assert("dBuV"@ != "KBytes/s"@);
            assert("min"@.len() == 3);
            assert("KBytes/s"@.len() == 8);
            assert("min"@ != "KBytes/s"@);
        },
    }
}

/// The first note marker in a text followed by a note marker is the text's
/// own, or else the one that follows it.
proof fn lemma_marker_after(s: Seq<char>, t: Seq<char>)
    ensures
        crate::strings::first_occurrence(s + note_marker()@ + t, note_marker()@) == Some(
            match crate::strings::first_occurrence(s, note_marker()@) {
                Some(i) => i,
                None => s.len() as int,
            },
        ),
    decreases s.len(),
{
    reveal_strlit(" /Note:");
    let m = note_marker()@;
    assert(m.len() == 7);
    let u = s + m + t;
    if s.len() == 0 {
        assert(u.take(7) =~= m);
    } else if s.len() >= 7 && s.take(7) == m {
        assert(u.take(7) =~= s.take(7));
    } else {
        if s.len() >= 7 {
            assert(u.take(7) =~= s.take(7));
        } else {
            let j = s.len() as int;
            assert(u[j] == m[0]);
            assert(u.take(7)[j] == m[0]);
            assert(m[j] != m[0]);
        }
        assert(u.take(7) != m);
        assert(u.skip(1) =~= s.skip(1) + m + t);
        lemma_marker_after(s.skip(1), t);
        if s.len() < 7 {
            lemma_unit_text_short(s);
            lemma_unit_text_short(s.skip(1));
        }
    }
}

/// A note after a unit name changes nothing: the text of a name followed by
/// the note marker and anything is that of the name alone, so `parse_str`
/// gives the same unit, or the same error.
pub proof fn lemma_unit_note_ignored(s: Seq<char>, t: Seq<char>)
    ensures
        unit_text(s + note_marker()@ + t) == unit_text(s),
        unit_of_name(unit_text(s + note_marker()@ + t)) == unit_of_name(unit_text(s)),
{
    lemma_marker_after(s, t);
    match crate::strings::first_occurrence(s, note_marker()@) {
        Some(i) => {
            crate::strings::lemma_first_occurrence_le(s, note_marker()@);
            assert((s + note_marker()@ + t).take(i) =~= s.take(i));
        },
        None => {
            assert((s + note_marker()@ + t).take(s.len() as int) =~= s);
        },
    }
}

/// The unit names of the specifications, canonical and XML, each with the
/// unit it stands for.
pub open spec fn unit_table() -> Seq<(Seq<char>, Unit)> {
    seq![
        (""@, Unit::Unitless),
        ("%"@, Unit::Percent),
        ("s"@, Unit::Second),
        ("ms"@, Unit::Millisecond),
        ("ns"@, Unit::NanoSecond),
        ("fs"@, Unit::FemtoSecond),
        ("°"@, Unit::Degree),
        ("°/s"@, Unit::DegreePerSecond),
        ("°C"@, Unit::Celsius),
        ("FL"@, Unit::FlightLevel),
        ("MHz"@, Unit::MHz),
        ("m"@, Unit::Meter),
        ("km"@, Unit::KiloMeter),
        ("m/s"@, Unit::MeterPerSecond),
        ("m/s2"@, Unit::MeterPerSecondSq),
        ("Mach"@, Unit::Mach),
        ("NM"@, Unit::NauticalMile),
        ("kt"@, Unit::Knot),
        ("NM/s"@, Unit::NauticalMilePerSecond),
        ("ft"@, Unit::Feet),
        ("ft/min"@, Unit::FeetPerMinute),
        ("hPa"@, Unit::HectoPascal),
        ("mb"@, Unit::Millibar),
        ("dB"@, Unit::dB),
        ("dBm"@, Unit::dBm),
        ("*2^(-6+f)"@, Unit::NauticalMile),
        ("* 2^(-6+f)"@, Unit::NauticalMile),
        ("* 2^(-7+f)"@, Unit::NauticalMile),
        ("*10E-5"@, Unit::Unitless),
        ("dBuV"@, Unit::dBuV),
        ("min"@, Unit::Minute),
        ("KBytes/s"@, Unit::KBytesPerSecond),
        ("sec"@, Unit::Second),
        ("deg"@, Unit::Degree),
        ("deg."@, Unit::Degree),
        ("deg/s"@, Unit::DegreePerSecond),
        ("deg/sec"@, Unit::DegreePerSecond),
        ("C"@, Unit::Celsius),
        ("deg C"@, Unit::Celsius),
        ("m/sec"@, Unit::MeterPerSecond),
        ("m/s^2"@, Unit::MeterPerSecondSq),
        ("m/s²"@, Unit::MeterPerSecondSq),
        ("Nm"@, Unit::NauticalMile),
        ("knot"@, Unit::Knot),
        ("feet/minute"@, Unit::FeetPerMinute),
        ("mbar"@, Unit::Millibar),
    ]
}

proof fn lemma_unit_row_0()
    ensures
        unit_of_name(""@) == Some(Unit::Unitless),
{
    reveal_strlit("");
    assert(""@.len() == 0);
}

proof fn lemma_unit_row_1()
    ensures
        unit_of_name("%"@) == Some(Unit::Percent),
{
    reveal_strlit("%");
    assert("%"@.len() == 1);
    reveal_strlit("");
    assert(""@.len() == 0);
    assert(""@ != "%"@);
}

proof fn lemma_unit_row_2()
    ensures
        unit_of_name("s"@) == Some(Unit::Second),
{
    reveal_strlit("s");
    assert("s"@.len() == 1);
    reveal_strlit("");
    assert(""@.len() == 0);
    assert(""@ != "s"@);
    reveal_strlit("%");
    assert("%"@[0] == '%' && "s"@[0] == 's');
    assert("%"@ != "s"@);
}

proof fn lemma_unit_row_3()
    ensures
        unit_of_name("ms"@) == Some(Unit::Millisecond),
{
    reveal_strlit("ms");
    assert("ms"@.len() == 2);
    reveal_strlit("");
    assert(""@.len() == 0);
    assert(""@ != "ms"@);
    reveal_strlit("%");
    assert("%"@.len() == 1);
    assert("%"@ != "ms"@);
    reveal_strlit("s");
    assert("s"@.len() == 1);
    assert("s"@ != "ms"@);
}

proof fn lemma_unit_row_4()
    ensures
        unit_of_name("ns"@) == Some(Unit::NanoSecond),
{
    reveal_strlit("ns");
    assert("ns"@.len() == 2);
    reveal_strlit("");
    assert(""@.len() == 0);
    assert(""@ != "ns"@);
    reveal_strlit("%");
    assert("%"@.len() == 1);
    assert("%"@ != "ns"@);
    reveal_strlit("s");
    assert("s"@.len() == 1);
    assert("s"@ != "ns"@);
    reveal_strlit("ms");
    assert("ms"@[0] == 'm' && "ns"@[0] == 'n');
    assert("ms"@ != "ns"@);
}

proof fn lemma_unit_row_5()
    ensures
        unit_of_name("fs"@) == Some(Unit::FemtoSecond),
{
    reveal_strlit("fs");
    assert("fs"@.len() == 2);
    reveal_strlit("");
    assert(""@.len() == 0);
    assert(""@ != "fs"@);
    reveal_strlit("%");
    assert("%"@.len() == 1);
    assert("%"@ != "fs"@);
    reveal_strlit("s");
    assert("s"@.len() == 1);
    assert("s"@ != "fs"@);
    reveal_strlit("ms");
    assert("ms"@[0] == 'm' && "fs"@[0] == 'f');
    assert("ms"@ != "fs"@);
    reveal_strlit("ns");
    assert("ns"@[0] == 'n' && "fs"@[0] == 'f');
    assert("ns"@ != "fs"@);
}

proof fn lemma_unit_row_6()
    ensures
        unit_of_name("°"@) == Some(Unit::Degree),
{
    reveal_strlit("°");
    assert("°"@.len() == 1);
    reveal_strlit("");
    assert(""@.len() == 0);
    assert(""@ != "°"@);
    reveal_strlit("%");
    assert("%"@[0] == '%' && "°"@[0] == '°');
    assert("%"@ != "°"@);
    reveal_strlit("s");
    assert("s"@[0] == 's' && "°"@[0] == '°');
    assert("s"@ != "°"@);
    reveal_strlit("ms");
    assert("ms"@.len() == 2);
    assert("ms"@ != "°"@);
    reveal_strlit("ns");
    assert("ns"@.len() == 2);
    assert("ns"@ != "°"@);
    reveal_strlit("fs");
    assert("fs"@.len() == 2);
    assert("fs"@ != "°"@);
}

proof fn lemma_unit_row_7()
    ensures
        unit_of_name("°/s"@) == Some(Unit::DegreePerSecond),
{
    reveal_strlit("°/s");
    assert("°/s"@.len() == 3);
    reveal_strlit("");
    assert(""@.len() == 0);
    assert(""@ != "°/s"@);
    reveal_strlit("%");
    assert("%"@.len() == 1);
    assert("%"@ != "°/s"@);
    reveal_strlit("s");
    assert("s"@.len() == 1);
    assert("s"@ != "°/s"@);
    reveal_strlit("ms");
    assert("ms"@.len() == 2);
    assert("ms"@ != "°/s"@);
    reveal_strlit("ns");
    assert("ns"@.len() == 2);
    assert("ns"@ != "°/s"@);
    reveal_strlit("fs");
    assert("fs"@.len() == 2);
    assert("fs"@ != "°/s"@);
    reveal_strlit("°");
    assert("°"@.len() == 1);
    assert("°"@ != "°/s"@);
}

proof fn lemma_unit_row_8()
    ensures
        unit_of_name("°C"@) == Some(Unit::Celsius),
{
    reveal_strlit("°C");
    assert("°C"@.len() == 2);
    reveal_strlit("");
    assert(""@.len() == 0);
    assert(""@ != "°C"@);
    reveal_strlit("%");
    assert("%"@.len() == 1);
    assert("%"@ != "°C"@);
    reveal_strlit("s");
    assert("s"@.len() == 1);
    assert("s"@ != "°C"@);
    reveal_strlit("ms");
    assert("ms"@[0] == 'm' && "°C"@[0] == '°');
    assert("ms"@ != "°C"@);
    reveal_strlit("ns");
    assert("ns"@[0] == 'n' && "°C"@[0] == '°');
    assert("ns"@ != "°C"@);
    reveal_strlit("fs");
    assert("fs"@[0] == 'f' && "°C"@[0] == '°');
    assert("fs"@ != "°C"@);
    reveal_strlit("°");
    assert("°"@.len() == 1);
    assert("°"@ != "°C"@);
    reveal_strlit("°/s");
    assert("°/s"@.len() == 3);
    assert("°/s"@ != "°C"@);
}

proof fn lemma_unit_row_9()
    ensures
        unit_of_name("FL"@) == Some(Unit::FlightLevel),
{
    reveal_strlit("FL");
    assert("FL"@.len() == 2);
    reveal_strlit("");
    assert(""@.len() == 0);
    assert(""@ != "FL"@);
    reveal_strlit("%");
    assert("%"@.len() == 1);
    assert("%"@ != "FL"@);
    reveal_strlit("s");
    assert("s"@.len() == 1);
    assert("s"@ != "FL"@);
    reveal_strlit("ms");
    assert("ms"@[0] == 'm' && "FL"@[0] == 'F');
    assert("ms"@ != "FL"@);
    reveal_strlit("ns");
    assert("ns"@[0] == 'n' && "FL"@[0] == 'F');
    assert("ns"@ != "FL"@);
    reveal_strlit("fs");
    assert("fs"@[0] == 'f' && "FL"@[0] == 'F');
    assert("fs"@ != "FL"@);
    reveal_strlit("°");
    assert("°"@.len() == 1);
    assert("°"@ != "FL"@);
    reveal_strlit("°/s");
    assert("°/s"@.len() == 3);
    assert("°/s"@ != "FL"@);
    reveal_strlit("°C");
    assert("°C"@[0] == '°' && "FL"@[0] == 'F');
    assert("°C"@ != "FL"@);
}

proof fn lemma_unit_row_10()
    ensures
        unit_of_name("MHz"@) == Some(Unit::MHz),
{
    reveal_strlit("MHz");
    assert("MHz"@.len() == 3);
    reveal_strlit("");
    assert(""@.len() == 0);
    assert(""@ != "MHz"@);
    reveal_strlit("%");
    assert("%"@.len() == 1);
    assert("%"@ != "MHz"@);
    reveal_strlit("s");
    assert("s"@.len() == 1);
    assert("s"@ != "MHz"@);
    reveal_strlit("ms");
    assert("ms"@.len() == 2);
    assert("ms"@ != "MHz"@);
    reveal_strlit("ns");
    assert("ns"@.len() == 2);
    assert("ns"@ != "MHz"@);
    reveal_strlit("fs");
    assert("fs"@.len() == 2);
    assert("fs"@ != "MHz"@);
    reveal_strlit("°");
    assert("°"@.len() == 1);
    assert("°"@ != "MHz"@);
    reveal_strlit("°/s");
    assert("°/s"@[0] == '°' && "MHz"@[0] == 'M');
    assert("°/s"@ != "MHz"@);
    reveal_strlit("°C");
    assert("°C"@.len() == 2);
    assert("°C"@ != "MHz"@);
    reveal_strlit("FL");
    assert("FL"@.len() == 2);
    assert("FL"@ != "MHz"@);
}

proof fn lemma_unit_row_11()
    ensures
        unit_of_name("m"@) == Some(Unit::Meter),
{
    reveal_strlit("m");
    assert("m"@.len() == 1);
    reveal_strlit("");
    assert(""@.len() == 0);
    assert(""@ != "m"@);
    reveal_strlit("%");
    assert("%"@[0] == '%' && "m"@[0] == 'm');
    assert("%"@ != "m"@);
    reveal_strlit("s");
    assert("s"@[0] == 's' && "m"@[0] == 'm');
    assert("s"@ != "m"@);
    reveal_strlit("ms");
    assert("ms"@.len() == 2);
    assert("ms"@ != "m"@);
    reveal_strlit("ns");
    assert("ns"@.len() == 2);
    assert("ns"@ != "m"@);
    reveal_strlit("fs");
    assert("fs"@.len() == 2);
    assert("fs"@ != "m"@);
    reveal_strlit("°");
    assert("°"@[0] == '°' && "m"@[0] == 'm');
    assert("°"@ != "m"@);
    reveal_strlit("°/s");
    assert("°/s"@.len() == 3);
    assert("°/s"@ != "m"@);
    reveal_strlit("°C");
    assert("°C"@.len() == 2);
    assert("°C"@ != "m"@);
    reveal_strlit("FL");
    assert("FL"@.len() == 2);
    assert("FL"@ != "m"@);
    reveal_strlit("MHz");
    assert("MHz"@.len() == 3);
    assert("MHz"@ != "m"@);
}

proof fn lemma_unit_row_12()
    ensures
        unit_of_name("km"@) == Some(Unit::KiloMeter),
{
    reveal_strlit("km");
    assert("km"@.len() == 2);
    reveal_strlit("");
    assert(""@.len() == 0);
    assert(""@ != "km"@);
    reveal_strlit("%");
    assert("%"@.len() == 1);
    assert("%"@ != "km"@);
    reveal_strlit("s");
    assert("s"@.len() == 1);
    assert("s"@ != "km"@);
    reveal_strlit("ms");
    assert("ms"@[0] == 'm' && "km"@[0] == 'k');
    assert("ms"@ != "km"@);
    reveal_strlit("ns");
    assert("ns"@[0] == 'n' && "km"@[0] == 'k');
    assert("ns"@ != "km"@);
    reveal_strlit("fs");
    assert("fs"@[0] == 'f' && "km"@[0] == 'k');
    assert("fs"@ != "km"@);
    reveal_strlit("°");
    assert("°"@.len() == 1);
    assert("°"@ != "km"@);
    reveal_strlit("°/s");
    assert("°/s"@.len() == 3);
    assert("°/s"@ != "km"@);
    reveal_strlit("°C");
    assert("°C"@[0] == '°' && "km"@[0] == 'k');
    assert("°C"@ != "km"@);
    reveal_strlit("FL");
    assert("FL"@[0] == 'F' && "km"@[0] == 'k');
    assert("FL"@ != "km"@);
    reveal_strlit("MHz");
    assert("MHz"@.len() == 3);
    assert("MHz"@ != "km"@);
    reveal_strlit("m");
    assert("m"@.len() == 1);
    assert("m"@ != "km"@);
}

proof fn lemma_unit_row_13()
    ensures
        unit_of_name("m/s"@) == Some(Unit::MeterPerSecond),
{
    reveal_strlit("m/s");
    assert("m/s"@.len() == 3);
    reveal_strlit("");
    assert(""@.len() == 0);
    assert(""@ != "m/s"@);
    reveal_strlit("%");
    assert("%"@.len() == 1);
    assert("%"@ != "m/s"@);
    reveal_strlit("s");
    assert("s"@.len() == 1);
    assert("s"@ != "m/s"@);
    reveal_strlit("ms");
    assert("ms"@.len() == 2);
    assert("ms"@ != "m/s"@);
    reveal_strlit("ns");
    assert("ns"@.len() == 2);
    assert("ns"@ != "m/s"@);
    reveal_strlit("fs");
    assert("fs"@.len() == 2);
    assert("fs"@ != "m/s"@);
    reveal_strlit("°");
    assert("°"@.len() == 1);
    assert("°"@ != "m/s"@);
    reveal_strlit("°/s");
    assert("°/s"@[0] == '°' && "m/s"@[0] == 'm');
    assert("°/s"@ != "m/s"@);
    reveal_strlit("°C");
    assert("°C"@.len() == 2);
    assert("°C"@ != "m/s"@);
    reveal_strlit("FL");
    assert("FL"@.len() == 2);
    assert("FL"@ != "m/s"@);
    reveal_strlit("MHz");
    assert("MHz"@[0] == 'M' && "m/s"@[0] == 'm');
    assert("MHz"@ != "m/s"@);
    reveal_strlit("m");
    assert("m"@.len() == 1);
    assert("m"@ != "m/s"@);
    reveal_strlit("km");
    assert("km"@.len() == 2);
    assert("km"@ != "m/s"@);
}

proof fn lemma_unit_row_14()
    ensures
        unit_of_name("m/s2"@) == Some(Unit::MeterPerSecondSq),
{
    reveal_strlit("m/s2");
    assert("m/s2"@.len() == 4);
    reveal_strlit("");
    assert(""@.len() == 0);
    assert(""@ != "m/s2"@);
    reveal_strlit("%");
    assert("%"@.len() == 1);
    assert("%"@ != "m/s2"@);
    reveal_strlit("s");
    assert("s"@.len() == 1);
    assert("s"@ != "m/s2"@);
    reveal_strlit("ms");
    assert("ms"@.len() == 2);
    assert("ms"@ != "m/s2"@);
    reveal_strlit("ns");
    assert("ns"@.len() == 2);
    assert("ns"@ != "m/s2"@);
    reveal_strlit("fs");
    assert("fs"@.len() == 2);
    assert("fs"@ != "m/s2"@);
    reveal_strlit("°");
    assert("°"@.len() == 1);
    assert("°"@ != "m/s2"@);
    reveal_strlit("°/s");
    assert("°/s"@.len() == 3);
    assert("°/s"@ != "m/s2"@);
    reveal_strlit("°C");
    assert("°C"@.len() == 2);
    assert("°C"@ != "m/s2"@);
    reveal_strlit("FL");
    assert("FL"@.len() == 2);
    assert("FL"@ != "m/s2"@);
    reveal_strlit("MHz");
    assert("MHz"@.len() == 3);
    assert("MHz"@ != "m/s2"@);
    reveal_strlit("m");
    assert("m"@.len() == 1);
    assert("m"@ != "m/s2"@);
    reveal_strlit("km");
    assert("km"@.len() == 2);
    assert("km"@ != "m/s2"@);
    reveal_strlit("m/s");
    assert("m/s"@.len() == 3);
    assert("m/s"@ != "m/s2"@);
}

proof fn lemma_unit_row_15()
    ensures
        unit_of_name("Mach"@) == Some(Unit::Mach),
{
    reveal_strlit("Mach");
    assert("Mach"@.len() == 4);
    reveal_strlit("");
    assert(""@.len() == 0);
    assert(""@ != "Mach"@);
    reveal_strlit("%");
    assert("%"@.len() == 1);
    assert("%"@ != "Mach"@);
    reveal_strlit("s");
    assert("s"@.len() == 1);
    assert("s"@ != "Mach"@);
    reveal_strlit("ms");
    assert("ms"@.len() == 2);
    assert("ms"@ != "Mach"@);
    reveal_strlit("ns");
    assert("ns"@.len() == 2);
    assert("ns"@ != "Mach"@);
    reveal_strlit("fs");
    assert("fs"@.len() == 2);
    assert("fs"@ != "Mach"@);
    reveal_strlit("°");
    assert("°"@.len() == 1);
    assert("°"@ != "Mach"@);
    reveal_strlit("°/s");
    assert("°/s"@.len() == 3);
    assert("°/s"@ != "Mach"@);
    reveal_strlit("°C");
    assert("°C"@.len() == 2);
    assert("°C"@ != "Mach"@);
    reveal_strlit("FL");
    assert("FL"@.len() == 2);
    assert("FL"@ != "Mach"@);
    reveal_strlit("MHz");
    assert("MHz"@.len() == 3);
    assert("MHz"@ != "Mach"@);
    reveal_strlit("m");
    assert("m"@.len() == 1);
    assert("m"@ != "Mach"@);
    reveal_strlit("km");
    assert("km"@.len() == 2);
    assert("km"@ != "Mach"@);
    reveal_strlit("m/s");
    assert("m/s"@.len() == 3);
    assert("m/s"@ != "Mach"@);
    reveal_strlit("m/s2");
    assert("m/s2"@[0] == 'm' && "Mach"@[0] == 'M');
    assert("m/s2"@ != "Mach"@);
}

proof fn lemma_unit_row_16()
    ensures
        unit_of_name("NM"@) == Some(Unit::NauticalMile),
{
    reveal_strlit("NM");
    assert("NM"@.len() == 2);
    reveal_strlit("");
    assert(""@.len() == 0);
    assert(""@ != "NM"@);
    reveal_strlit("%");
    assert("%"@.len() == 1);
    assert("%"@ != "NM"@);
    reveal_strlit("s");
    assert("s"@.len() == 1);
    assert("s"@ != "NM"@);
    reveal_strlit("ms");
    assert("ms"@[0] == 'm' && "NM"@[0] == 'N');
    assert("ms"@ != "NM"@);
    reveal_strlit("ns");
    assert("ns"@[0] == 'n' && "NM"@[0] == 'N');
    assert("ns"@ != "NM"@);
    reveal_strlit("fs");
    assert("fs"@[0] == 'f' && "NM"@[0] == 'N');
    assert("fs"@ != "NM"@);
    reveal_strlit("°");
    assert("°"@.len() == 1);
    assert("°"@ != "NM"@);
    reveal_strlit("°/s");
    assert("°/s"@.len() == 3);
    assert("°/s"@ != "NM"@);
    reveal_strlit("°C");
    assert("°C"@[0] == '°' && "NM"@[0] == 'N');
    assert("°C"@ != "NM"@);
    reveal_strlit("FL");
    assert("FL"@[0] == 'F' && "NM"@[0] == 'N');
    assert("FL"@ != "NM"@);
    reveal_strlit("MHz");
    assert("MHz"@.len() == 3);
    assert("MHz"@ != "NM"@);
    reveal_strlit("m");
    assert("m"@.len() == 1);
    assert("m"@ != "NM"@);
    reveal_strlit("km");
    assert("km"@[0] == 'k' && "NM"@[0] == 'N');
    assert("km"@ != "NM"@);
    reveal_strlit("m/s");
    assert("m/s"@.len() == 3);
    assert("m/s"@ != "NM"@);
    reveal_strlit("m/s2");
    assert("m/s2"@.len() == 4);
    assert("m/s2"@ != "NM"@);
    reveal_strlit("Mach");
    assert("Mach"@.len() == 4);
    assert("Mach"@ != "NM"@);
}

proof fn lemma_unit_row_17()
    ensures
        unit_of_name("kt"@) == Some(Unit::Knot),
{
    reveal_strlit("kt");
    assert("kt"@.len() == 2);
    reveal_strlit("");
    assert(""@.len() == 0);
    assert(""@ != "kt"@);
    reveal_strlit("%");
    assert("%"@.len() == 1);
    assert("%"@ != "kt"@);
    reveal_strlit("s");
    assert("s"@.len() == 1);
    assert("s"@ != "kt"@);
    reveal_strlit("ms");
    assert("ms"@[0] == 'm' && "kt"@[0] == 'k');
    assert("ms"@ != "kt"@);
    reveal_strlit("ns");
    assert("ns"@[0] == 'n' && "kt"@[0] == 'k');
    assert("ns"@ != "kt"@);
    reveal_strlit("fs");
    assert("fs"@[0] == 'f' && "kt"@[0] == 'k');
    assert("fs"@ != "kt"@);
    reveal_strlit("°");
    assert("°"@.len() == 1);
    assert("°"@ != "kt"@);
    reveal_strlit("°/s");
    assert("°/s"@.len() == 3);
    assert("°/s"@ != "kt"@);
    reveal_strlit("°C");
    assert("°C"@[0] == '°' && "kt"@[0] == 'k');
    assert("°C"@ != "kt"@);
    reveal_strlit("FL");
    assert("FL"@[0] == 'F' && "kt"@[0] == 'k');
    assert("FL"@ != "kt"@);
    reveal_strlit("MHz");
    assert("MHz"@.len() == 3);
    assert("MHz"@ != "kt"@);
    reveal_strlit("m");
    assert("m"@.len() == 1);
    assert("m"@ != "kt"@);
    reveal_strlit("km");
    assert("km"@[1] == 'm' && "kt"@[1] == 't');
    assert("km"@ != "kt"@);
    reveal_strlit("m/s");
    assert("m/s"@.len() == 3);
    assert("m/s"@ != "kt"@);
    reveal_strlit("m/s2");
    assert("m/s2"@.len() == 4);
    assert("m/s2"@ != "kt"@);
    reveal_strlit("Mach");
    assert("Mach"@.len() == 4);
    assert("Mach"@ != "kt"@);
    reveal_strlit("NM");
    assert("NM"@[0] == 'N' && "kt"@[0] == 'k');
    assert("NM"@ != "kt"@);
}

proof fn lemma_unit_row_18()
    ensures
        unit_of_name("NM/s"@) == Some(Unit::NauticalMilePerSecond),
{
    reveal_strlit("NM/s");
    assert("NM/s"@.len() == 4);
    reveal_strlit("");
    assert(""@.len() == 0);
    assert(""@ != "NM/s"@);
    reveal_strlit("%");
    assert("%"@.len() == 1);
    assert("%"@ != "NM/s"@);
    reveal_strlit("s");
    assert("s"@.len() == 1);
    assert("s"@ != "NM/s"@);
    reveal_strlit("ms");
    assert("ms"@.len() == 2);
    assert("ms"@ != "NM/s"@);
    reveal_strlit("ns");
    assert("ns"@.len() == 2);
    assert("ns"@ != "NM/s"@);
    reveal_strlit("fs");
    assert("fs"@.len() == 2);
    assert("fs"@ != "NM/s"@);
    reveal_strlit("°");
    assert("°"@.len() == 1);
    assert("°"@ != "NM/s"@);
    reveal_strlit("°/s");
    assert("°/s"@.len() == 3);
    assert("°/s"@ != "NM/s"@);
    reveal_strlit("°C");
    assert("°C"@.len() == 2);
    assert("°C"@ != "NM/s"@);
    reveal_strlit("FL");
    assert("FL"@.len() == 2);
    assert("FL"@ != "NM/s"@);
    reveal_strlit("MHz");
    assert("MHz"@.len() == 3);
    assert("MHz"@ != "NM/s"@);
    reveal_strlit("m");
    assert("m"@.len() == 1);
    assert("m"@ != "NM/s"@);
    reveal_strlit("km");
    assert("km"@.len() == 2);
    assert("km"@ != "NM/s"@);
    reveal_strlit("m/s");
    assert("m/s"@.len() == 3);
    assert("m/s"@ != "NM/s"@);
    reveal_strlit("m/s2");
    assert("m/s2"@[0] == 'm' && "NM/s"@[0] == 'N');
    assert("m/s2"@ != "NM/s"@);
    reveal_strlit("Mach");
    assert("Mach"@[0] == 'M' && "NM/s"@[0] == 'N');
    assert("Mach"@ != "NM/s"@);
    reveal_strlit("NM");
    assert("NM"@.len() == 2);
    assert("NM"@ != "NM/s"@);
    reveal_strlit("kt");
    assert("kt"@.len() == 2);
    assert("kt"@ != "NM/s"@);
}

proof fn lemma_unit_row_19()
    ensures
        unit_of_name("ft"@) == Some(Unit::Feet),
{
    reveal_strlit("ft");
    assert("ft"@.len() == 2);
    reveal_strlit("");
    assert(""@.len() == 0);
    assert(""@ != "ft"@);
    reveal_strlit("%");
    assert("%"@.len() == 1);
    assert("%"@ != "ft"@);
    reveal_strlit("s");
    assert("s"@.len() == 1);
    assert("s"@ != "ft"@);
    reveal_strlit("ms");
    assert("ms"@[0] == 'm' && "ft"@[0] == 'f');
    assert("ms"@ != "ft"@);
    reveal_strlit("ns");
    assert("ns"@[0] == 'n' && "ft"@[0] == 'f');
    assert("ns"@ != "ft"@);
    reveal_strlit("fs");
    assert("fs"@[1] == 's' && "ft"@[1] == 't');
    assert("fs"@ != "ft"@);
    reveal_strlit("°");
    assert("°"@.len() == 1);
    assert("°"@ != "ft"@);
    reveal_strlit("°/s");
    assert("°/s"@.len() == 3);
    assert("°/s"@ != "ft"@);
    reveal_strlit("°C");
    assert("°C"@[0] == '°' && "ft"@[0] == 'f');
    assert("°C"@ != "ft"@);
    reveal_strlit("FL");
    assert("FL"@[0] == 'F' && "ft"@[0] == 'f');
    assert("FL"@ != "ft"@);
    reveal_strlit("MHz");
    assert("MHz"@.len() == 3);
    assert("MHz"@ != "ft"@);
    reveal_strlit("m");
    assert("m"@.len() == 1);
    assert("m"@ != "ft"@);
    reveal_strlit("km");
    assert("km"@[0] == 'k' && "ft"@[0] == 'f');
    assert("km"@ != "ft"@);
    reveal_strlit("m/s");
    assert("m/s"@.len() == 3);
    assert("m/s"@ != "ft"@);
    reveal_strlit("m/s2");
    assert("m/s2"@.len() == 4);
    assert("m/s2"@ != "ft"@);
    reveal_strlit("Mach");
    assert("Mach"@.len() == 4);
    assert("Mach"@ != "ft"@);
    reveal_strlit("NM");
    assert("NM"@[0] == 'N' && "ft"@[0] == 'f');
    assert("NM"@ != "ft"@);
    reveal_strlit("kt");
    assert("kt"@[0] == 'k' && "ft"@[0] == 'f');
    assert("kt"@ != "ft"@);
    reveal_strlit("NM/s");
    assert("NM/s"@.len() == 4);
    assert("NM/s"@ != "ft"@);
}

proof fn lemma_unit_row_20()
    ensures
        unit_of_name("ft/min"@) == Some(Unit::FeetPerMinute),
{
    reveal_strlit("ft/min");
    assert("ft/min"@.len() == 6);
    reveal_strlit("");
    assert(""@.len() == 0);
    assert(""@ != "ft/min"@);
    reveal_strlit("%");
    assert("%"@.len() == 1);
    assert("%"@ != "ft/min"@);
    reveal_strlit("s");
    assert("s"@.len() == 1);
    assert("s"@ != "ft/min"@);
    reveal_strlit("ms");
    assert("ms"@.len() == 2);
    assert("ms"@ != "ft/min"@);
    reveal_strlit("ns");
    assert("ns"@.len() == 2);
    assert("ns"@ != "ft/min"@);
    reveal_strlit("fs");
    assert("fs"@.len() == 2);
    assert("fs"@ != "ft/min"@);
    reveal_strlit("°");
    assert("°"@.len() == 1);
    assert("°"@ != "ft/min"@);
    reveal_strlit("°/s");
    assert("°/s"@.len() == 3);
    assert("°/s"@ != "ft/min"@);
    reveal_strlit("°C");
    assert("°C"@.len() == 2);
    assert("°C"@ != "ft/min"@);
    reveal_strlit("FL");
    assert("FL"@.len() == 2);
    assert("FL"@ != "ft/min"@);
    reveal_strlit("MHz");
    assert("MHz"@.len() == 3);
    assert("MHz"@ != "ft/min"@);
    reveal_strlit("m");
    assert("m"@.len() == 1);
    assert("m"@ != "ft/min"@);
    reveal_strlit("km");
    assert("km"@.len() == 2);
    assert("km"@ != "ft/min"@);
    reveal_strlit("m/s");
    assert("m/s"@.len() == 3);
    assert("m/s"@ != "ft/min"@);
    reveal_strlit("m/s2");
    assert("m/s2"@.len() == 4);
    assert("m/s2"@ != "ft/min"@);
    reveal_strlit("Mach");
    assert("Mach"@.len() == 4);
    assert("Mach"@ != "ft/min"@);
    reveal_strlit("NM");
    assert("NM"@.len() == 2);
    assert("NM"@ != "ft/min"@);
    reveal_strlit("kt");
    assert("kt"@.len() == 2);
    assert("kt"@ != "ft/min"@);
    reveal_strlit("NM/s");
    assert("NM/s"@.len() == 4);
    assert("NM/s"@ != "ft/min"@);
    reveal_strlit("ft");
    assert("ft"@.len() == 2);
    assert("ft"@ != "ft/min"@);
}

proof fn lemma_unit_row_21()
    ensures
        unit_of_name("hPa"@) == Some(Unit::HectoPascal),
{
    reveal_strlit("hPa");
    assert("hPa"@.len() == 3);
    reveal_strlit("");
    assert(""@.len() == 0);
    assert(""@ != "hPa"@);
    reveal_strlit("%");
    assert("%"@.len() == 1);
    assert("%"@ != "hPa"@);
    reveal_strlit("s");
    assert("s"@.len() == 1);
    assert("s"@ != "hPa"@);
    reveal_strlit("ms");
    assert("ms"@.len() == 2);
    assert("ms"@ != "hPa"@);
    reveal_strlit("ns");
    assert("ns"@.len() == 2);
    assert("ns"@ != "hPa"@);
    reveal_strlit("fs");
    assert("fs"@.len() == 2);
    assert("fs"@ != "hPa"@);
    reveal_strlit("°");
    assert("°"@.len() == 1);
    assert("°"@ != "hPa"@);
    reveal_strlit("°/s");
    assert("°/s"@[0] == '°' && "hPa"@[0] == 'h');
    assert("°/s"@ != "hPa"@);
    reveal_strlit("°C");
    assert("°C"@.len() == 2);
    assert("°C"@ != "hPa"@);
    reveal_strlit("FL");
    assert("FL"@.len() == 2);
    assert("FL"@ != "hPa"@);
    reveal_strlit("MHz");
    assert("MHz"@[0] == 'M' && "hPa"@[0] == 'h');
    assert("MHz"@ != "hPa"@);
    reveal_strlit("m");
    assert("m"@.len() == 1);
    assert("m"@ != "hPa"@);
    reveal_strlit("km");
    assert("km"@.len() == 2);
    assert("km"@ != "hPa"@);
    reveal_strlit("m/s");
    assert("m/s"@[0] == 'm' && "hPa"@[0] == 'h');
    assert("m/s"@ != "hPa"@);
    reveal_strlit("m/s2");
    assert("m/s2"@.len() == 4);
    assert("m/s2"@ != "hPa"@);
    reveal_strlit("Mach");
    assert("Mach"@.len() == 4);
    assert("Mach"@ != "hPa"@);
    reveal_strlit("NM");
    assert("NM"@.len() == 2);
    assert("NM"@ != "hPa"@);
    reveal_strlit("kt");
    assert("kt"@.len() == 2);
    assert("kt"@ != "hPa"@);
    reveal_strlit("NM/s");
    assert("NM/s"@.len() == 4);
    assert("NM/s"@ != "hPa"@);
    reveal_strlit("ft");
    assert("ft"@.len() == 2);
    assert("ft"@ != "hPa"@);
    reveal_strlit("ft/min");
    assert("ft/min"@.len() == 6);
    assert("ft/min"@ != "hPa"@);
}

proof fn lemma_unit_row_22()
    ensures
        unit_of_name("mb"@) == Some(Unit::Millibar),
{
    reveal_strlit("mb");
    assert("mb"@.len() == 2);
    reveal_strlit("");
    assert(""@.len() == 0);
    assert(""@ != "mb"@);
    reveal_strlit("%");
    assert("%"@.len() == 1);
    assert("%"@ != "mb"@);
    reveal_strlit("s");
    assert("s"@.len() == 1);
    assert("s"@ != "mb"@);
    reveal_strlit("ms");
    assert("ms"@[1] == 's' && "mb"@[1] == 'b');
    assert("ms"@ != "mb"@);
    reveal_strlit("ns");
    assert("ns"@[0] == 'n' && "mb"@[0] == 'm');
    assert("ns"@ != "mb"@);
    reveal_strlit("fs");
    assert("fs"@[0] == 'f' && "mb"@[0] == 'm');
    assert("fs"@ != "mb"@);
    reveal_strlit("°");
    assert("°"@.len() == 1);
    assert("°"@ != "mb"@);
    reveal_strlit("°/s");
    assert("°/s"@.len() == 3);
    assert("°/s"@ != "mb"@);
    reveal_strlit("°C");
    assert("°C"@[0] == '°' && "mb"@[0] == 'm');
    assert("°C"@ != "mb"@);
    reveal_strlit("FL");
    assert("FL"@[0] == 'F' && "mb"@[0] == 'm');
    assert("FL"@ != "mb"@);
    reveal_strlit("MHz");
    assert("MHz"@.len() == 3);
    assert("MHz"@ != "mb"@);
    reveal_strlit("m");
    assert("m"@.len() == 1);
    assert("m"@ != "mb"@);
    reveal_strlit("km");
    assert("km"@[0] == 'k' && "mb"@[0] == 'm');
    assert("km"@ != "mb"@);
    reveal_strlit("m/s");
    assert("m/s"@.len() == 3);
    assert("m/s"@ != "mb"@);
    reveal_strlit("m/s2");
    assert("m/s2"@.len() == 4);
    assert("m/s2"@ != "mb"@);
    reveal_strlit("Mach");
    assert("Mach"@.len() == 4);
    assert("Mach"@ != "mb"@);
    reveal_strlit("NM");
    assert("NM"@[0] == 'N' && "mb"@[0] == 'm');
    assert("NM"@ != "mb"@);
    reveal_strlit("kt");
    assert("kt"@[0] == 'k' && "mb"@[0] == 'm');
    assert("kt"@ != "mb"@);
    reveal_strlit("NM/s");
    assert("NM/s"@.len() == 4);
    assert("NM/s"@ != "mb"@);
    reveal_strlit("ft");
    assert("ft"@[0] == 'f' && "mb"@[0] == 'm');
    assert("ft"@ != "mb"@);
    reveal_strlit("ft/min");
    assert("ft/min"@.len() == 6);
    assert("ft/min"@ != "mb"@);
    reveal_strlit("hPa");
    assert("hPa"@.len() == 3);
    assert("hPa"@ != "mb"@);
}

proof fn lemma_unit_row_23()
    ensures
        unit_of_name("dB"@) == Some(Unit::dB),
{
    reveal_strlit("dB");
    assert("dB"@.len() == 2);
    reveal_strlit("");
    assert(""@.len() == 0);
    assert(""@ != "dB"@);
    reveal_strlit("%");
    assert("%"@.len() == 1);
    assert("%"@ != "dB"@);
    reveal_strlit("s");
    assert("s"@.len() == 1);
    assert("s"@ != "dB"@);
    reveal_strlit("ms");
    assert("ms"@[0] == 'm' && "dB"@[0] == 'd');
    assert("ms"@ != "dB"@);
    reveal_strlit("ns");
    assert("ns"@[0] == 'n' && "dB"@[0] == 'd');
    assert("ns"@ != "dB"@);
    reveal_strlit("fs");
    assert("fs"@[0] == 'f' && "dB"@[0] == 'd');
    assert("fs"@ != "dB"@);
    reveal_strlit("°");
    assert("°"@.len() == 1);
    assert("°"@ != "dB"@);
    reveal_strlit("°/s");
    assert("°/s"@.len() == 3);
    assert("°/s"@ != "dB"@);
    reveal_strlit("°C");
    assert("°C"@[0] == '°' && "dB"@[0] == 'd');
    assert("°C"@ != "dB"@);
    reveal_strlit("FL");
    assert("FL"@[0] == 'F' && "dB"@[0] == 'd');
    assert("FL"@ != "dB"@);
    reveal_strlit("MHz");
    assert("MHz"@.len() == 3);
    assert("MHz"@ != "dB"@);
    reveal_strlit("m");
    assert("m"@.len() == 1);
    assert("m"@ != "dB"@);
    reveal_strlit("km");
    assert("km"@[0] == 'k' && "dB"@[0] == 'd');
    assert("km"@ != "dB"@);
    reveal_strlit("m/s");
    assert("m/s"@.len() == 3);
    assert("m/s"@ != "dB"@);
    reveal_strlit("m/s2");
    assert("m/s2"@.len() == 4);
    assert("m/s2"@ != "dB"@);
    reveal_strlit("Mach");
    assert("Mach"@.len() == 4);
    assert("Mach"@ != "dB"@);
    reveal_strlit("NM");
    assert("NM"@[0] == 'N' && "dB"@[0] == 'd');
    assert("NM"@ != "dB"@);
    reveal_strlit("kt");
    assert("kt"@[0] == 'k' && "dB"@[0] == 'd');
    assert("kt"@ != "dB"@);
    reveal_strlit("NM/s");
    assert("NM/s"@.len() == 4);
    assert("NM/s"@ != "dB"@);
    reveal_strlit("ft");
    assert("ft"@[0] == 'f' && "dB"@[0] == 'd');
    assert("ft"@ != "dB"@);
    reveal_strlit("ft/min");
    assert("ft/min"@.len() == 6);
    assert("ft/min"@ != "dB"@);
    reveal_strlit("hPa");
    assert("hPa"@.len() == 3);
    assert("hPa"@ != "dB"@);
    reveal_strlit("mb");
    assert("mb"@[0] == 'm' && "dB"@[0] == 'd');
    assert("mb"@ != "dB"@);
}

proof fn lemma_unit_row_24()
    ensures
        unit_of_name("dBm"@) == Some(Unit::dBm),
{
    reveal_strlit("dBm");
    assert("dBm"@.len() == 3);
    reveal_strlit("");
    assert(""@.len() == 0);
    assert(""@ != "dBm"@);
    reveal_strlit("%");
    assert("%"@.len() == 1);
    assert("%"@ != "dBm"@);
    reveal_strlit("s");
    assert("s"@.len() == 1);
    assert("s"@ != "dBm"@);
    reveal_strlit("ms");
    assert("ms"@.len() == 2);
    assert("ms"@ != "dBm"@);
    reveal_strlit("ns");
    assert("ns"@.len() == 2);
    assert("ns"@ != "dBm"@);
    reveal_strlit("fs");
    assert("fs"@.len() == 2);
    assert("fs"@ != "dBm"@);
    reveal_strlit("°");
    assert("°"@.len() == 1);
    assert("°"@ != "dBm"@);
    reveal_strlit("°/s");
    assert("°/s"@[0] == '°' && "dBm"@[0] == 'd');
    assert("°/s"@ != "dBm"@);
    reveal_strlit("°C");
    assert("°C"@.len() == 2);
    assert("°C"@ != "dBm"@);
    reveal_strlit("FL");
    assert("FL"@.len() == 2);
    assert("FL"@ != "dBm"@);
    reveal_strlit("MHz");
    assert("MHz"@[0] == 'M' && "dBm"@[0] == 'd');
    assert("MHz"@ != "dBm"@);
    reveal_strlit("m");
    assert("m"@.len() == 1);
    assert("m"@ != "dBm"@);
    reveal_strlit("km");
    assert("km"@.len() == 2);
    assert("km"@ != "dBm"@);
    reveal_strlit("m/s");
    assert("m/s"@[0] == 'm' && "dBm"@[0] == 'd');
    assert("m/s"@ != "dBm"@);
    reveal_strlit("m/s2");
    assert("m/s2"@.len() == 4);
    assert("m/s2"@ != "dBm"@);
    reveal_strlit("Mach");
    assert("Mach"@.len() == 4);
    assert("Mach"@ != "dBm"@);
    reveal_strlit("NM");
    assert("NM"@.len() == 2);
    assert("NM"@ != "dBm"@);
    reveal_strlit("kt");
    assert("kt"@.len() == 2);
    assert("kt"@ != "dBm"@);
    reveal_strlit("NM/s");
    assert("NM/s"@.len() == 4);
    assert("NM/s"@ != "dBm"@);
    reveal_strlit("ft");
    assert("ft"@.len() == 2);
    assert("ft"@ != "dBm"@);
    reveal_strlit("ft/min");
    assert("ft/min"@.len() == 6);
    assert("ft/min"@ != "dBm"@);
    reveal_strlit("hPa");
    assert("hPa"@[0] == 'h' && "dBm"@[0] == 'd');
    assert("hPa"@ != "dBm"@);
    reveal_strlit("mb");
    assert("mb"@.len() == 2);
    assert("mb"@ != "dBm"@);
    reveal_strlit("dB");
    assert("dB"@.len() == 2);
    assert("dB"@ != "dBm"@);
}

proof fn lemma_unit_row_25()
    ensures
        unit_of_name("*2^(-6+f)"@) == Some(Unit::NauticalMile),
{
    reveal_strlit("*2^(-6+f)");
    assert("*2^(-6+f)"@.len() == 9);
    reveal_strlit("");
    assert(""@.len() == 0);
    assert(""@ != "*2^(-6+f)"@);
    reveal_strlit("%");
    assert("%"@.len() == 1);
    assert("%"@ != "*2^(-6+f)"@);
    reveal_strlit("s");
    assert("s"@.len() == 1);
    assert("s"@ != "*2^(-6+f)"@);
    reveal_strlit("ms");
    assert("ms"@.len() == 2);
    assert("ms"@ != "*2^(-6+f)"@);
    reveal_strlit("ns");
    assert("ns"@.len() == 2);
    assert("ns"@ != "*2^(-6+f)"@);
    reveal_strlit("fs");
    assert("fs"@.len() == 2);
    assert("fs"@ != "*2^(-6+f)"@);
    reveal_strlit("°");
    assert("°"@.len() == 1);
    assert("°"@ != "*2^(-6+f)"@);
    reveal_strlit("°/s");
    assert("°/s"@.len() == 3);
    assert("°/s"@ != "*2^(-6+f)"@);
    reveal_strlit("°C");
    assert("°C"@.len() == 2);
    assert("°C"@ != "*2^(-6+f)"@);
    reveal_strlit("FL");
    assert("FL"@.len() == 2);
    assert("FL"@ != "*2^(-6+f)"@);
    reveal_strlit("MHz");
    assert("MHz"@.len() == 3);
    assert("MHz"@ != "*2^(-6+f)"@);
    reveal_strlit("m");
    assert("m"@.len() == 1);
    assert("m"@ != "*2^(-6+f)"@);
    reveal_strlit("km");
    assert("km"@.len() == 2);
    assert("km"@ != "*2^(-6+f)"@);
    reveal_strlit("m/s");
    assert("m/s"@.len() == 3);
    assert("m/s"@ != "*2^(-6+f)"@);
    reveal_strlit("m/s2");
    assert("m/s2"@.len() == 4);
    assert("m/s2"@ != "*2^(-6+f)"@);
    reveal_strlit("Mach");
    assert("Mach"@.len() == 4);
    assert("Mach"@ != "*2^(-6+f)"@);
    reveal_strlit("NM");
    assert("NM"@.len() == 2);
    assert("NM"@ != "*2^(-6+f)"@);
    reveal_strlit("kt");
    assert("kt"@.len() == 2);
    assert("kt"@ != "*2^(-6+f)"@);
    reveal_strlit("NM/s");
    assert("NM/s"@.len() == 4);
    assert("NM/s"@ != "*2^(-6+f)"@);
    reveal_strlit("ft");
    assert("ft"@.len() == 2);
    assert("ft"@ != "*2^(-6+f)"@);
    reveal_strlit("ft/min");
    assert("ft/min"@.len() == 6);
    assert("ft/min"@ != "*2^(-6+f)"@);
    reveal_strlit("hPa");
    assert("hPa"@.len() == 3);
    assert("hPa"@ != "*2^(-6+f)"@);
    reveal_strlit("mb");
    assert("mb"@.len() == 2);
    assert("mb"@ != "*2^(-6+f)"@);
    reveal_strlit("dB");
    assert("dB"@.len() == 2);
    assert("dB"@ != "*2^(-6+f)"@);
    reveal_strlit("dBm");
    assert("dBm"@.len() == 3);
    assert("dBm"@ != "*2^(-6+f)"@);
}

proof fn lemma_unit_row_26()
    ensures
        unit_of_name("* 2^(-6+f)"@) == Some(Unit::NauticalMile),
{
    reveal_strlit("* 2^(-6+f)");
    assert("* 2^(-6+f)"@.len() == 10);
    reveal_strlit("");
    assert(""@.len() == 0);
    assert(""@ != "* 2^(-6+f)"@);
    reveal_strlit("%");
    assert("%"@.len() == 1);
    assert("%"@ != "* 2^(-6+f)"@);
    reveal_strlit("s");
    assert("s"@.len() == 1);
    assert("s"@ != "* 2^(-6+f)"@);
    reveal_strlit("ms");
    assert("ms"@.len() == 2);
    assert("ms"@ != "* 2^(-6+f)"@);
    reveal_strlit("ns");
    assert("ns"@.len() == 2);
    assert("ns"@ != "* 2^(-6+f)"@);
    reveal_strlit("fs");
    assert("fs"@.len() == 2);
    assert("fs"@ != "* 2^(-6+f)"@);
    reveal_strlit("°");
    assert("°"@.len() == 1);
    assert("°"@ != "* 2^(-6+f)"@);
    reveal_strlit("°/s");
    assert("°/s"@.len() == 3);
    assert("°/s"@ != "* 2^(-6+f)"@);
    reveal_strlit("°C");
    assert("°C"@.len() == 2);
    assert("°C"@ != "* 2^(-6+f)"@);
    reveal_strlit("FL");
    assert("FL"@.len() == 2);
    assert("FL"@ != "* 2^(-6+f)"@);
    reveal_strlit("MHz");
    assert("MHz"@.len() == 3);
    assert("MHz"@ != "* 2^(-6+f)"@);
    reveal_strlit("m");
    assert("m"@.len() == 1);
    assert("m"@ != "* 2^(-6+f)"@);
    reveal_strlit("km");
    assert("km"@.len() == 2);
    assert("km"@ != "* 2^(-6+f)"@);
    reveal_strlit("m/s");
    assert("m/s"@.len() == 3);
    assert("m/s"@ != "* 2^(-6+f)"@);
    reveal_strlit("m/s2");
    assert("m/s2"@.len() == 4);
    assert("m/s2"@ != "* 2^(-6+f)"@);
    reveal_strlit("Mach");
    assert("Mach"@.len() == 4);
    assert("Mach"@ != "* 2^(-6+f)"@);
    reveal_strlit("NM");
    assert("NM"@.len() == 2);
    assert("NM"@ != "* 2^(-6+f)"@);
    reveal_strlit("kt");
    assert("kt"@.len() == 2);
    assert("kt"@ != "* 2^(-6+f)"@);
    reveal_strlit("NM/s");
    assert("NM/s"@.len() == 4);
    assert("NM/s"@ != "* 2^(-6+f)"@);
    reveal_strlit("ft");
    assert("ft"@.len() == 2);
    assert("ft"@ != "* 2^(-6+f)"@);
    reveal_strlit("ft/min");
    assert("ft/min"@.len() == 6);
    assert("ft/min"@ != "* 2^(-6+f)"@);
    reveal_strlit("hPa");
    assert("hPa"@.len() == 3);
    assert("hPa"@ != "* 2^(-6+f)"@);
    reveal_strlit("mb");
    assert("mb"@.len() == 2);
    assert("mb"@ != "* 2^(-6+f)"@);
    reveal_strlit("dB");
    assert("dB"@.len() == 2);
    assert("dB"@ != "* 2^(-6+f)"@);
    reveal_strlit("dBm");
    assert("dBm"@.len() == 3);
    assert("dBm"@ != "* 2^(-6+f)"@);
    reveal_strlit("*2^(-6+f)");
    assert("*2^(-6+f)"@.len() == 9);
    assert("*2^(-6+f)"@ != "* 2^(-6+f)"@);
}

proof fn lemma_unit_row_27()
    ensures
        unit_of_name("* 2^(-7+f)"@) == Some(Unit::NauticalMile),
{
    reveal_strlit("* 2^(-7+f)");
    assert("* 2^(-7+f)"@.len() == 10);
    reveal_strlit("");
    assert(""@.len() == 0);
    assert(""@ != "* 2^(-7+f)"@);
    reveal_strlit("%");
    assert("%"@.len() == 1);
    assert("%"@ != "* 2^(-7+f)"@);
    reveal_strlit("s");
    assert("s"@.len() == 1);
    assert("s"@ != "* 2^(-7+f)"@);
    reveal_strlit("ms");
    assert("ms"@.len() == 2);
    assert("ms"@ != "* 2^(-7+f)"@);
    reveal_strlit("ns");
    assert("ns"@.len() == 2);
    assert("ns"@ != "* 2^(-7+f)"@);
    reveal_strlit("fs");
    assert("fs"@.len() == 2);
    assert("fs"@ != "* 2^(-7+f)"@);
    reveal_strlit("°");
    assert("°"@.len() == 1);
    assert("°"@ != "* 2^(-7+f)"@);
    reveal_strlit("°/s");
    assert("°/s"@.len() == 3);
    assert("°/s"@ != "* 2^(-7+f)"@);
    reveal_strlit("°C");
    assert("°C"@.len() == 2);
    assert("°C"@ != "* 2^(-7+f)"@);
    reveal_strlit("FL");
    assert("FL"@.len() == 2);
    assert("FL"@ != "* 2^(-7+f)"@);
    reveal_strlit("MHz");
    assert("MHz"@.len() == 3);
    assert("MHz"@ != "* 2^(-7+f)"@);
    reveal_strlit("m");
    assert("m"@.len() == 1);
    assert("m"@ != "* 2^(-7+f)"@);
    reveal_strlit("km");
    assert("km"@.len() == 2);
    assert("km"@ != "* 2^(-7+f)"@);
    reveal_strlit("m/s");
    assert("m/s"@.len() == 3);
    assert("m/s"@ != "* 2^(-7+f)"@);
    reveal_strlit("m/s2");
    assert("m/s2"@.len() == 4);
    assert("m/s2"@ != "* 2^(-7+f)"@);
    reveal_strlit("Mach");
    assert("Mach"@.len() == 4);
    assert("Mach"@ != "* 2^(-7+f)"@);
    reveal_strlit("NM");
    assert("NM"@.len() == 2);
    assert("NM"@ != "* 2^(-7+f)"@);
    reveal_strlit("kt");
    assert("kt"@.len() == 2);
    assert("kt"@ != "* 2^(-7+f)"@);
    reveal_strlit("NM/s");
    assert("NM/s"@.len() == 4);
    assert("NM/s"@ != "* 2^(-7+f)"@);
    reveal_strlit("ft");
    assert("ft"@.len() == 2);
    assert("ft"@ != "* 2^(-7+f)"@);
    reveal_strlit("ft/min");
    assert("ft/min"@.len() == 6);
    assert("ft/min"@ != "* 2^(-7+f)"@);
    reveal_strlit("hPa");
    assert("hPa"@.len() == 3);
    assert("hPa"@ != "* 2^(-7+f)"@);
    reveal_strlit("mb");
    assert("mb"@.len() == 2);
    assert("mb"@ != "* 2^(-7+f)"@);
    reveal_strlit("dB");
    assert("dB"@.len() == 2);
    assert("dB"@ != "* 2^(-7+f)"@);
    reveal_strlit("dBm");
    assert("dBm"@.len() == 3);
    assert("dBm"@ != "* 2^(-7+f)"@);
    reveal_strlit("*2^(-6+f)");
    assert("*2^(-6+f)"@.len() == 9);
    assert("*2^(-6+f)"@ != "* 2^(-7+f)"@);
    reveal_strlit("* 2^(-6+f)");
    assert("* 2^(-6+f)"@[6] == '6' && "* 2^(-7+f)"@[6] == '7');
    assert("* 2^(-6+f)"@ != "* 2^(-7+f)"@);
}

proof fn lemma_unit_row_28()
    ensures
        unit_of_name("*10E-5"@) == Some(Unit::Unitless),
{
    reveal_strlit("*10E-5");
    assert("*10E-5"@.len() == 6);
    reveal_strlit("");
    assert(""@.len() == 0);
    assert(""@ != "*10E-5"@);
    reveal_strlit("%");
    assert("%"@.len() == 1);
    assert("%"@ != "*10E-5"@);
    reveal_strlit("s");
    assert("s"@.len() == 1);
    assert("s"@ != "*10E-5"@);
    reveal_strlit("ms");
    assert("ms"@.len() == 2);
    assert("ms"@ != "*10E-5"@);
    reveal_strlit("ns");
    assert("ns"@.len() == 2);
    assert("ns"@ != "*10E-5"@);
    reveal_strlit("fs");
    assert("fs"@.len() == 2);
    assert("fs"@ != "*10E-5"@);
    reveal_strlit("°");
    assert("°"@.len() == 1);
    assert("°"@ != "*10E-5"@);
    reveal_strlit("°/s");
    assert("°/s"@.len() == 3);
    assert("°/s"@ != "*10E-5"@);
    reveal_strlit("°C");
    assert("°C"@.len() == 2);
    assert("°C"@ != "*10E-5"@);
    reveal_strlit("FL");
    assert("FL"@.len() == 2);
    assert("FL"@ != "*10E-5"@);
    reveal_strlit("MHz");
    assert("MHz"@.len() == 3);
    assert("MHz"@ != "*10E-5"@);
    reveal_strlit("m");
    assert("m"@.len() == 1);
    assert("m"@ != "*10E-5"@);
    reveal_strlit("km");
    assert("km"@.len() == 2);
    assert("km"@ != "*10E-5"@);
    reveal_strlit("m/s");
    assert("m/s"@.len() == 3);
    assert("m/s"@ != "*10E-5"@);
    reveal_strlit("m/s2");
    assert("m/s2"@.len() == 4);
    assert("m/s2"@ != "*10E-5"@);
    reveal_strlit("Mach");
    assert("Mach"@.len() == 4);
    assert("Mach"@ != "*10E-5"@);
    reveal_strlit("NM");
    assert("NM"@.len() == 2);
    assert("NM"@ != "*10E-5"@);
    reveal_strlit("kt");
    assert("kt"@.len() == 2);
    assert("kt"@ != "*10E-5"@);
    reveal_strlit("NM/s");
    assert("NM/s"@.len() == 4);
    assert("NM/s"@ != "*10E-5"@);
    reveal_strlit("ft");
    assert("ft"@.len() == 2);
    assert("ft"@ != "*10E-5"@);
    reveal_strlit("ft/min");
    assert("ft/min"@[0] == 'f' && "*10E-5"@[0] == '*');
    assert("ft/min"@ != "*10E-5"@);
    reveal_strlit("hPa");
    assert("hPa"@.len() == 3);
    assert("hPa"@ != "*10E-5"@);
    reveal_strlit("mb");
    assert("mb"@.len() == 2);
    assert("mb"@ != "*10E-5"@);
    reveal_strlit("dB");
    assert("dB"@.len() == 2);
    assert("dB"@ != "*10E-5"@);
    reveal_strlit("dBm");
    assert("dBm"@.len() == 3);
    assert("dBm"@ != "*10E-5"@);
    reveal_strlit("*2^(-6+f)");
    assert("*2^(-6+f)"@.len() == 9);
    assert("*2^(-6+f)"@ != "*10E-5"@);
    reveal_strlit("* 2^(-6+f)");
    assert("* 2^(-6+f)"@.len() == 10);
    assert("* 2^(-6+f)"@ != "*10E-5"@);
    reveal_strlit("* 2^(-7+f)");
    assert("* 2^(-7+f)"@.len() == 10);
    assert("* 2^(-7+f)"@ != "*10E-5"@);
}

proof fn lemma_unit_row_29()
    ensures
        unit_of_name("dBuV"@) == Some(Unit::dBuV),
{
    reveal_strlit("dBuV");
    assert("dBuV"@.len() == 4);
    reveal_strlit("");
    assert(""@.len() == 0);
    assert(""@ != "dBuV"@);
    reveal_strlit("%");
    assert("%"@.len() == 1);
    assert("%"@ != "dBuV"@);
    reveal_strlit("s");
    assert("s"@.len() == 1);
    assert("s"@ != "dBuV"@);
    reveal_strlit("ms");
    assert("ms"@.len() == 2);
    assert("ms"@ != "dBuV"@);
    reveal_strlit("ns");
    assert("ns"@.len() == 2);
    assert("ns"@ != "dBuV"@);
    reveal_strlit("fs");
    assert("fs"@.len() == 2);
    assert("fs"@ != "dBuV"@);
    reveal_strlit("°");
    assert("°"@.len() == 1);
    assert("°"@ != "dBuV"@);
    reveal_strlit("°/s");
    assert("°/s"@.len() == 3);
    assert("°/s"@ != "dBuV"@);
    reveal_strlit("°C");
    assert("°C"@.len() == 2);
    assert("°C"@ != "dBuV"@);
    reveal_strlit("FL");
    assert("FL"@.len() == 2);
    assert("FL"@ != "dBuV"@);
    reveal_strlit("MHz");
    assert("MHz"@.len() == 3);
    assert("MHz"@ != "dBuV"@);
    reveal_strlit("m");
    assert("m"@.len() == 1);
    assert("m"@ != "dBuV"@);
    reveal_strlit("km");
    assert("km"@.len() == 2);
    assert("km"@ != "dBuV"@);
    reveal_strlit("m/s");
    assert("m/s"@.len() == 3);
    assert("m/s"@ != "dBuV"@);
    reveal_strlit("m/s2");
    assert("m/s2"@[0] == 'm' && "dBuV"@[0] == 'd');
    assert("m/s2"@ != "dBuV"@);
    reveal_strlit("Mach");
    assert("Mach"@[0] == 'M' && "dBuV"@[0] == 'd');
    assert("Mach"@ != "dBuV"@);
    reveal_strlit("NM");
    assert("NM"@.len() == 2);
    assert("NM"@ != "dBuV"@);
    reveal_strlit("kt");
    assert("kt"@.len() == 2);
    assert("kt"@ != "dBuV"@);
    reveal_strlit("NM/s");
    assert("NM/s"@[0] == 'N' && "dBuV"@[0] == 'd');
    assert("NM/s"@ != "dBuV"@);
    reveal_strlit("ft");
    assert("ft"@.len() == 2);
    assert("ft"@ != "dBuV"@);
    reveal_strlit("ft/min");
    assert("ft/min"@.len() == 6);
    assert("ft/min"@ != "dBuV"@);
    reveal_strlit("hPa");
    assert("hPa"@.len() == 3);
    assert("hPa"@ != "dBuV"@);
    reveal_strlit("mb");
    assert("mb"@.len() == 2);
    assert("mb"@ != "dBuV"@);
    reveal_strlit("dB");
    assert("dB"@.len() == 2);
    assert("dB"@ != "dBuV"@);
    reveal_strlit("dBm");
    assert("dBm"@.len() == 3);
    assert("dBm"@ != "dBuV"@);
    reveal_strlit("*2^(-6+f)");
    assert("*2^(-6+f)"@.len() == 9);
    assert("*2^(-6+f)"@ != "dBuV"@);
    reveal_strlit("* 2^(-6+f)");
    assert("* 2^(-6+f)"@.len() == 10);
    assert("* 2^(-6+f)"@ != "dBuV"@);
    reveal_strlit("* 2^(-7+f)");
    assert("* 2^(-7+f)"@.len() == 10);
    assert("* 2^(-7+f)"@ != "dBuV"@);
    reveal_strlit("*10E-5");
    assert("*10E-5"@.len() == 6);
    assert("*10E-5"@ != "dBuV"@);
}

proof fn lemma_unit_row_30()
    ensures
        unit_of_name("min"@) == Some(Unit::Minute),
{
    reveal_strlit("min");
    assert("min"@.len() == 3);
    reveal_strlit("");
    assert(""@.len() == 0);
    assert(""@ != "min"@);
    reveal_strlit("%");
    assert("%"@.len() == 1);
    assert("%"@ != "min"@);
    reveal_strlit("s");
    assert("s"@.len() == 1);
    assert("s"@ != "min"@);
    reveal_strlit("ms");
    assert("ms"@.len() == 2);
    assert("ms"@ != "min"@);
    reveal_strlit("ns");
    assert("ns"@.len() == 2);
    assert("ns"@ != "min"@);
    reveal_strlit("fs");
    assert("fs"@.len() == 2);
    assert("fs"@ != "min"@);
    reveal_strlit("°");
    assert("°"@.len() == 1);
    assert("°"@ != "min"@);
    reveal_strlit("°/s");
    assert("°/s"@[0] == '°' && "min"@[0] == 'm');
    assert("°/s"@ != "min"@);
    reveal_strlit("°C");
    assert("°C"@.len() == 2);
    assert("°C"@ != "min"@);
    reveal_strlit("FL");
    assert("FL"@.len() == 2);
    assert("FL"@ != "min"@);
    reveal_strlit("MHz");
    assert("MHz"@[0] == 'M' && "min"@[0] == 'm');
    assert("MHz"@ != "min"@);
    reveal_strlit("m");
    assert("m"@.len() == 1);
    assert("m"@ != "min"@);
    reveal_strlit("km");
    assert("km"@.len() == 2);
    assert("km"@ != "min"@);
    reveal_strlit("m/s");
    assert("m/s"@[1] == '/' && "min"@[1] == 'i');
    assert("m/s"@ != "min"@);
    reveal_strlit("m/s2");
    assert("m/s2"@.len() == 4);
    assert("m/s2"@ != "min"@);
    reveal_strlit("Mach");
    assert("Mach"@.len() == 4);
    assert("Mach"@ != "min"@);
    reveal_strlit("NM");
    assert("NM"@.len() == 2);
    assert("NM"@ != "min"@);
    reveal_strlit("kt");
    assert("kt"@.len() == 2);
    assert("kt"@ != "min"@);
    reveal_strlit("NM/s");
    assert("NM/s"@.len() == 4);
    assert("NM/s"@ != "min"@);
    reveal_strlit("ft");
    assert("ft"@.len() == 2);
    assert("ft"@ != "min"@);
    reveal_strlit("ft/min");
    assert("ft/min"@.len() == 6);
    assert("ft/min"@ != "min"@);
    reveal_strlit("hPa");
    assert("hPa"@[0] == 'h' && "min"@[0] == 'm');
    assert("hPa"@ != "min"@);
    reveal_strlit("mb");
    assert("mb"@.len() == 2);
    assert("mb"@ != "min"@);
    reveal_strlit("dB");
    assert("dB"@.len() == 2);
    assert("dB"@ != "min"@);
    reveal_strlit("dBm");
    assert("dBm"@[0] == 'd' && "min"@[0] == 'm');
    assert("dBm"@ != "min"@);
    reveal_strlit("*2^(-6+f)");
    assert("*2^(-6+f)"@.len() == 9);
    assert("*2^(-6+f)"@ != "min"@);
    reveal_strlit("* 2^(-6+f)");
    assert("* 2^(-6+f)"@.len() == 10);
    assert("* 2^(-6+f)"@ != "min"@);
    reveal_strlit("* 2^(-7+f)");
    assert("* 2^(-7+f)"@.len() == 10);
    assert("* 2^(-7+f)"@ != "min"@);
    reveal_strlit("*10E-5");
    assert("*10E-5"@.len() == 6);
    assert("*10E-5"@ != "min"@);
    reveal_strlit("dBuV");
    assert("dBuV"@.len() == 4);
    assert("dBuV"@ != "min"@);
}

proof fn lemma_unit_row_31()
    ensures
        unit_of_name("KBytes/s"@) == Some(Unit::KBytesPerSecond),
{
    reveal_strlit("KBytes/s");
    assert("KBytes/s"@.len() == 8);
    reveal_strlit("");
    assert(""@.len() == 0);
    assert(""@ != "KBytes/s"@);
    reveal_strlit("%");
    assert("%"@.len() == 1);
    assert("%"@ != "KBytes/s"@);
    reveal_strlit("s");
    assert("s"@.len() == 1);
    assert("s"@ != "KBytes/s"@);
    reveal_strlit("ms");
    assert("ms"@.len() == 2);
    assert("ms"@ != "KBytes/s"@);
    reveal_strlit("ns");
    assert("ns"@.len() == 2);
    assert("ns"@ != "KBytes/s"@);
    reveal_strlit("fs");
    assert("fs"@.len() == 2);
    assert("fs"@ != "KBytes/s"@);
    reveal_strlit("°");
    assert("°"@.len() == 1);
    assert("°"@ != "KBytes/s"@);
    reveal_strlit("°/s");
    assert("°/s"@.len() == 3);
    assert("°/s"@ != "KBytes/s"@);
    reveal_strlit("°C");
    assert("°C"@.len() == 2);
    assert("°C"@ != "KBytes/s"@);
    reveal_strlit("FL");
    assert("FL"@.len() == 2);
    assert("FL"@ != "KBytes/s"@);
    reveal_strlit("MHz");
    assert("MHz"@.len() == 3);
    assert("MHz"@ != "KBytes/s"@);
    reveal_strlit("m");
    assert("m"@.len() == 1);
    assert("m"@ != "KBytes/s"@);
    reveal_strlit("km");
    assert("km"@.len() == 2);
    assert("km"@ != "KBytes/s"@);
    reveal_strlit("m/s");
    assert("m/s"@.len() == 3);
    assert("m/s"@ != "KBytes/s"@);
    reveal_strlit("m/s2");
    assert("m/s2"@.len() == 4);
    assert("m/s2"@ != "KBytes/s"@);
    reveal_strlit("Mach");
    assert("Mach"@.len() == 4);
    assert("Mach"@ != "KBytes/s"@);
    reveal_strlit("NM");
    assert("NM"@.len() == 2);
    assert("NM"@ != "KBytes/s"@);
    reveal_strlit("kt");
    assert("kt"@.len() == 2);
    assert("kt"@ != "KBytes/s"@);
    reveal_strlit("NM/s");
    assert("NM/s"@.len() == 4);
    assert("NM/s"@ != "KBytes/s"@);
    reveal_strlit("ft");
    assert("ft"@.len() == 2);
    assert("ft"@ != "KBytes/s"@);
    reveal_strlit("ft/min");
    assert("ft/min"@.len() == 6);
    assert("ft/min"@ != "KBytes/s"@);
    reveal_strlit("hPa");
    assert("hPa"@.len() == 3);
    assert("hPa"@ != "KBytes/s"@);
    reveal_strlit("mb");
    assert("mb"@.len() == 2);
    assert("mb"@ != "KBytes/s"@);
    reveal_strlit("dB");
    assert("dB"@.len() == 2);
    assert("dB"@ != "KBytes/s"@);
    reveal_strlit("dBm");
    assert("dBm"@.len() == 3);
    assert("dBm"@ != "KBytes/s"@);
    reveal_strlit("*2^(-6+f)");
    assert("*2^(-6+f)"@.len() == 9);
    assert("*2^(-6+f)"@ != "KBytes/s"@);
    reveal_strlit("* 2^(-6+f)");
    assert("* 2^(-6+f)"@.len() == 10);
    assert("* 2^(-6+f)"@ != "KBytes/s"@);
    reveal_strlit("* 2^(-7+f)");
    assert("* 2^(-7+f)"@.len() == 10);
    assert("* 2^(-7+f)"@ != "KBytes/s"@);
    reveal_strlit("*10E-5");
    assert("*10E-5"@.len() == 6);
    assert("*10E-5"@ != "KBytes/s"@);
    reveal_strlit("dBuV");
    assert("dBuV"@.len() == 4);
    assert("dBuV"@ != "KBytes/s"@);
    reveal_strlit("min");
    assert("min"@.len() == 3);
    assert("min"@ != "KBytes/s"@);
}

proof fn lemma_unit_row_32()
    ensures
        unit_of_name("sec"@) == Some(Unit::Second),
{
    reveal_strlit("sec");
    assert("sec"@.len() == 3);
    reveal_strlit("");
    assert(""@.len() == 0);
    assert(""@ != "sec"@);
    reveal_strlit("%");
    assert("%"@.len() == 1);
    assert("%"@ != "sec"@);
    reveal_strlit("s");
    assert("s"@.len() == 1);
    assert("s"@ != "sec"@);
    reveal_strlit("ms");
    assert("ms"@.len() == 2);
    assert("ms"@ != "sec"@);
    reveal_strlit("ns");
    assert("ns"@.len() == 2);
    assert("ns"@ != "sec"@);
    reveal_strlit("fs");
    assert("fs"@.len() == 2);
    assert("fs"@ != "sec"@);
    reveal_strlit("°");
    assert("°"@.len() == 1);
    assert("°"@ != "sec"@);
    reveal_strlit("°/s");
    assert("°/s"@[0] == '°' && "sec"@[0] == 's');
    assert("°/s"@ != "sec"@);
    reveal_strlit("°C");
    assert("°C"@.len() == 2);
    assert("°C"@ != "sec"@);
    reveal_strlit("FL");
    assert("FL"@.len() == 2);
    assert("FL"@ != "sec"@);
    reveal_strlit("MHz");
    assert("MHz"@[0] == 'M' && "sec"@[0] == 's');
    assert("MHz"@ != "sec"@);
    reveal_strlit("m");
    assert("m"@.len() == 1);
    assert("m"@ != "sec"@);
    reveal_strlit("km");
    assert("km"@.len() == 2);
    assert("km"@ != "sec"@);
    reveal_strlit("m/s");
    assert("m/s"@[0] == 'm' && "sec"@[0] == 's');
    assert("m/s"@ != "sec"@);
    reveal_strlit("m/s2");
    assert("m/s2"@.len() == 4);
    assert("m/s2"@ != "sec"@);
    reveal_strlit("Mach");
    assert("Mach"@.len() == 4);
    assert("Mach"@ != "sec"@);
    reveal_strlit("NM");
    assert("NM"@.len() == 2);
    assert("NM"@ != "sec"@);
    reveal_strlit("kt");
    assert("kt"@.len() == 2);
    assert("kt"@ != "sec"@);
    reveal_strlit("NM/s");
    assert("NM/s"@.len() == 4);
    assert("NM/s"@ != "sec"@);
    reveal_strlit("ft");
    assert("ft"@.len() == 2);
    assert("ft"@ != "sec"@);
    reveal_strlit("ft/min");
    assert("ft/min"@.len() == 6);
    assert("ft/min"@ != "sec"@);
    reveal_strlit("hPa");
    assert("hPa"@[0] == 'h' && "sec"@[0] == 's');
    assert("hPa"@ != "sec"@);
    reveal_strlit("mb");
    assert("mb"@.len() == 2);
    assert("mb"@ != "sec"@);
    reveal_strlit("dB");
    assert("dB"@.len() == 2);
    assert("dB"@ != "sec"@);
    reveal_strlit("dBm");
    assert("dBm"@[0] == 'd' && "sec"@[0] == 's');
    assert("dBm"@ != "sec"@);
    reveal_strlit("*2^(-6+f)");
    assert("*2^(-6+f)"@.len() == 9);
    assert("*2^(-6+f)"@ != "sec"@);
    reveal_strlit("* 2^(-6+f)");
    assert("* 2^(-6+f)"@.len() == 10);
    assert("* 2^(-6+f)"@ != "sec"@);
    reveal_strlit("* 2^(-7+f)");
    assert("* 2^(-7+f)"@.len() == 10);
    assert("* 2^(-7+f)"@ != "sec"@);
    reveal_strlit("*10E-5");
    assert("*10E-5"@.len() == 6);
    assert("*10E-5"@ != "sec"@);
    reveal_strlit("dBuV");
    assert("dBuV"@.len() == 4);
    assert("dBuV"@ != "sec"@);
    reveal_strlit("min");
    assert("min"@[0] == 'm' && "sec"@[0] == 's');
    assert("min"@ != "sec"@);
    reveal_strlit("KBytes/s");
    assert("KBytes/s"@.len() == 8);
    assert("KBytes/s"@ != "sec"@);
}

proof fn lemma_unit_row_33()
    ensures
        unit_of_name("deg"@) == Some(Unit::Degree),
{
    reveal_strlit("deg");
    assert("deg"@.len() == 3);
    reveal_strlit("");
    assert(""@.len() == 0);
    assert(""@ != "deg"@);
    reveal_strlit("%");
    assert("%"@.len() == 1);
    assert("%"@ != "deg"@);
    reveal_strlit("s");
    assert("s"@.len() == 1);
    assert("s"@ != "deg"@);
    reveal_strlit("ms");
    assert("ms"@.len() == 2);
    assert("ms"@ != "deg"@);
    reveal_strlit("ns");
    assert("ns"@.len() == 2);
    assert("ns"@ != "deg"@);
    reveal_strlit("fs");
    assert("fs"@.len() == 2);
    assert("fs"@ != "deg"@);
    reveal_strlit("°");
    assert("°"@.len() == 1);
    assert("°"@ != "deg"@);
    reveal_strlit("°/s");
    assert("°/s"@[0] == '°' && "deg"@[0] == 'd');
    assert("°/s"@ != "deg"@);
    reveal_strlit("°C");
    assert("°C"@.len() == 2);
    assert("°C"@ != "deg"@);
    reveal_strlit("FL");
    assert("FL"@.len() == 2);
    assert("FL"@ != "deg"@);
    reveal_strlit("MHz");
    assert("MHz"@[0] == 'M' && "deg"@[0] == 'd');
    assert("MHz"@ != "deg"@);
    reveal_strlit("m");
    assert("m"@.len() == 1);
    assert("m"@ != "deg"@);
    reveal_strlit("km");
    assert("km"@.len() == 2);
    assert("km"@ != "deg"@);
    reveal_strlit("m/s");
    assert("m/s"@[0] == 'm' && "deg"@[0] == 'd');
    assert("m/s"@ != "deg"@);
    reveal_strlit("m/s2");
    assert("m/s2"@.len() == 4);
    assert("m/s2"@ != "deg"@);
    reveal_strlit("Mach");
    assert("Mach"@.len() == 4);
    assert("Mach"@ != "deg"@);
    reveal_strlit("NM");
    assert("NM"@.len() == 2);
    assert("NM"@ != "deg"@);
    reveal_strlit("kt");
    assert("kt"@.len() == 2);
    assert("kt"@ != "deg"@);
    reveal_strlit("NM/s");
    assert("NM/s"@.len() == 4);
    assert("NM/s"@ != "deg"@);
    reveal_strlit("ft");
    assert("ft"@.len() == 2);
    assert("ft"@ != "deg"@);
    reveal_strlit("ft/min");
    assert("ft/min"@.len() == 6);
    assert("ft/min"@ != "deg"@);
    reveal_strlit("hPa");
    assert("hPa"@[0] == 'h' && "deg"@[0] == 'd');
    assert("hPa"@ != "deg"@);
    reveal_strlit("mb");
    assert("mb"@.len() == 2);
    assert("mb"@ != "deg"@);
    reveal_strlit("dB");
    assert("dB"@.len() == 2);
    assert("dB"@ != "deg"@);
    reveal_strlit("dBm");
    assert("dBm"@[1] == 'B' && "deg"@[1] == 'e');
    assert("dBm"@ != "deg"@);
    reveal_strlit("*2^(-6+f)");
    assert("*2^(-6+f)"@.len() == 9);
    assert("*2^(-6+f)"@ != "deg"@);
    reveal_strlit("* 2^(-6+f)");
    assert("* 2^(-6+f)"@.len() == 10);
    assert("* 2^(-6+f)"@ != "deg"@);
    reveal_strlit("* 2^(-7+f)");
    assert("* 2^(-7+f)"@.len() == 10);
    assert("* 2^(-7+f)"@ != "deg"@);
    reveal_strlit("*10E-5");
    assert("*10E-5"@.len() == 6);
    assert("*10E-5"@ != "deg"@);
    reveal_strlit("dBuV");
    assert("dBuV"@.len() == 4);
    assert("dBuV"@ != "deg"@);
    reveal_strlit("min");
    assert("min"@[0] == 'm' && "deg"@[0] == 'd');
    assert("min"@ != "deg"@);
    reveal_strlit("KBytes/s");
    assert("KBytes/s"@.len() == 8);
    assert("KBytes/s"@ != "deg"@);
    reveal_strlit("sec");
    assert("sec"@[0] == 's' && "deg"@[0] == 'd');
    assert("sec"@ != "deg"@);
}

proof fn lemma_unit_row_34()
    ensures
        unit_of_name("deg."@) == Some(Unit::Degree),
{
    reveal_strlit("deg.");
    assert("deg."@.len() == 4);
    reveal_strlit("");
    assert(""@.len() == 0);
    assert(""@ != "deg."@);
    reveal_strlit("%");
    assert("%"@.len() == 1);
    assert("%"@ != "deg."@);
    reveal_strlit("s");
    assert("s"@.len() == 1);
    assert("s"@ != "deg."@);
    reveal_strlit("ms");
    assert("ms"@.len() == 2);
    assert("ms"@ != "deg."@);
    reveal_strlit("ns");
    assert("ns"@.len() == 2);
    assert("ns"@ != "deg."@);
    reveal_strlit("fs");
    assert("fs"@.len() == 2);
    assert("fs"@ != "deg."@);
    reveal_strlit("°");
    assert("°"@.len() == 1);
    assert("°"@ != "deg."@);
    reveal_strlit("°/s");
    assert("°/s"@.len() == 3);
    assert("°/s"@ != "deg."@);
    reveal_strlit("°C");
    assert("°C"@.len() == 2);
    assert("°C"@ != "deg."@);
    reveal_strlit("FL");
    assert("FL"@.len() == 2);
    assert("FL"@ != "deg."@);
    reveal_strlit("MHz");
    assert("MHz"@.len() == 3);
    assert("MHz"@ != "deg."@);
    reveal_strlit("m");
    assert("m"@.len() == 1);
    assert("m"@ != "deg."@);
    reveal_strlit("km");
    assert("km"@.len() == 2);
    assert("km"@ != "deg."@);
    reveal_strlit("m/s");
    assert("m/s"@.len() == 3);
    assert("m/s"@ != "deg."@);
    reveal_strlit("m/s2");
    assert("m/s2"@[0] == 'm' && "deg."@[0] == 'd');
    assert("m/s2"@ != "deg."@);
    reveal_strlit("Mach");
    assert("Mach"@[0] == 'M' && "deg."@[0] == 'd');
    assert("Mach"@ != "deg."@);
    reveal_strlit("NM");
    assert("NM"@.len() == 2);
    assert("NM"@ != "deg."@);
    reveal_strlit("kt");
    assert("kt"@.len() == 2);
    assert("kt"@ != "deg."@);
    reveal_strlit("NM/s");
    assert("NM/s"@[0] == 'N' && "deg."@[0] == 'd');
    assert("NM/s"@ != "deg."@);
    reveal_strlit("ft");
    assert("ft"@.len() == 2);
    assert("ft"@ != "deg."@);
    reveal_strlit("ft/min");
    assert("ft/min"@.len() == 6);
    assert("ft/min"@ != "deg."@);
    reveal_strlit("hPa");
    assert("hPa"@.len() == 3);
    assert("hPa"@ != "deg."@);
    reveal_strlit("mb");
    assert("mb"@.len() == 2);
    assert("mb"@ != "deg."@);
    reveal_strlit("dB");
    assert("dB"@.len() == 2);
    assert("dB"@ != "deg."@);
    reveal_strlit("dBm");
    assert("dBm"@.len() == 3);
    assert("dBm"@ != "deg."@);
    reveal_strlit("*2^(-6+f)");
    assert("*2^(-6+f)"@.len() == 9);
    assert("*2^(-6+f)"@ != "deg."@);
    reveal_strlit("* 2^(-6+f)");
    assert("* 2^(-6+f)"@.len() == 10);
    assert("* 2^(-6+f)"@ != "deg."@);
    reveal_strlit("* 2^(-7+f)");
    assert("* 2^(-7+f)"@.len() == 10);
    assert("* 2^(-7+f)"@ != "deg."@);
    reveal_strlit("*10E-5");
    assert("*10E-5"@.len() == 6);
    assert("*10E-5"@ != "deg."@);
    reveal_strlit("dBuV");
    assert("dBuV"@[1] == 'B' && "deg."@[1] == 'e');
    assert("dBuV"@ != "deg."@);
    reveal_strlit("min");
    assert("min"@.len() == 3);
    assert("min"@ != "deg."@);
    reveal_strlit("KBytes/s");
    assert("KBytes/s"@.len() == 8);
    assert("KBytes/s"@ != "deg."@);
    reveal_strlit("sec");
    assert("sec"@.len() == 3);
    assert("sec"@ != "deg."@);
    reveal_strlit("deg");
    assert("deg"@.len() == 3);
    assert("deg"@ != "deg."@);
}

proof fn lemma_unit_row_35()
    ensures
        unit_of_name("deg/s"@) == Some(Unit::DegreePerSecond),
{
    reveal_strlit("deg/s");
    assert("deg/s"@.len() == 5);
    reveal_strlit("");
    assert(""@.len() == 0);
    assert(""@ != "deg/s"@);
    reveal_strlit("%");
    assert("%"@.len() == 1);
    assert("%"@ != "deg/s"@);
    reveal_strlit("s");
    assert("s"@.len() == 1);
    assert("s"@ != "deg/s"@);
    reveal_strlit("ms");
    assert("ms"@.len() == 2);
    assert("ms"@ != "deg/s"@);
    reveal_strlit("ns");
    assert("ns"@.len() == 2);
    assert("ns"@ != "deg/s"@);
    reveal_strlit("fs");
    assert("fs"@.len() == 2);
    assert("fs"@ != "deg/s"@);
    reveal_strlit("°");
    assert("°"@.len() == 1);
    assert("°"@ != "deg/s"@);
    reveal_strlit("°/s");
    assert("°/s"@.len() == 3);
    assert("°/s"@ != "deg/s"@);
    reveal_strlit("°C");
    assert("°C"@.len() == 2);
    assert("°C"@ != "deg/s"@);
    reveal_strlit("FL");
    assert("FL"@.len() == 2);
    assert("FL"@ != "deg/s"@);
    reveal_strlit("MHz");
    assert("MHz"@.len() == 3);
    assert("MHz"@ != "deg/s"@);
    reveal_strlit("m");
    assert("m"@.len() == 1);
    assert("m"@ != "deg/s"@);
    reveal_strlit("km");
    assert("km"@.len() == 2);
    assert("km"@ != "deg/s"@);
    reveal_strlit("m/s");
    assert("m/s"@.len() == 3);
    assert("m/s"@ != "deg/s"@);
    reveal_strlit("m/s2");
    assert("m/s2"@.len() == 4);
    assert("m/s2"@ != "deg/s"@);
    reveal_strlit("Mach");
    assert("Mach"@.len() == 4);
    assert("Mach"@ != "deg/s"@);
    reveal_strlit("NM");
    assert("NM"@.len() == 2);
    assert("NM"@ != "deg/s"@);
    reveal_strlit("kt");
    assert("kt"@.len() == 2);
    assert("kt"@ != "deg/s"@);
    reveal_strlit("NM/s");
    assert("NM/s"@.len() == 4);
    assert("NM/s"@ != "deg/s"@);
    reveal_strlit("ft");
    assert("ft"@.len() == 2);
    assert("ft"@ != "deg/s"@);
    reveal_strlit("ft/min");
    assert("ft/min"@.len() == 6);
    assert("ft/min"@ != "deg/s"@);
    reveal_strlit("hPa");
    assert("hPa"@.len() == 3);
    assert("hPa"@ != "deg/s"@);
    reveal_strlit("mb");
    assert("mb"@.len() == 2);
    assert("mb"@ != "deg/s"@);
    reveal_strlit("dB");
    assert("dB"@.len() == 2);
    assert("dB"@ != "deg/s"@);
    reveal_strlit("dBm");
    assert("dBm"@.len() == 3);
    assert("dBm"@ != "deg/s"@);
    reveal_strlit("*2^(-6+f)");
    assert("*2^(-6+f)"@.len() == 9);
    assert("*2^(-6+f)"@ != "deg/s"@);
    reveal_strlit("* 2^(-6+f)");
    assert("* 2^(-6+f)"@.len() == 10);
    assert("* 2^(-6+f)"@ != "deg/s"@);
    reveal_strlit("* 2^(-7+f)");
    assert("* 2^(-7+f)"@.len() == 10);
    assert("* 2^(-7+f)"@ != "deg/s"@);
    reveal_strlit("*10E-5");
    assert("*10E-5"@.len() == 6);
    assert("*10E-5"@ != "deg/s"@);
    reveal_strlit("dBuV");
    assert("dBuV"@.len() == 4);
    assert("dBuV"@ != "deg/s"@);
    reveal_strlit("min");
    assert("min"@.len() == 3);
    assert("min"@ != "deg/s"@);
    reveal_strlit("KBytes/s");
    assert("KBytes/s"@.len() == 8);
    assert("KBytes/s"@ != "deg/s"@);
    reveal_strlit("sec");
    assert("sec"@.len() == 3);
    assert("sec"@ != "deg/s"@);
    reveal_strlit("deg");
    assert("deg"@.len() == 3);
    assert("deg"@ != "deg/s"@);
    reveal_strlit("deg.");
    assert("deg."@.len() == 4);
    assert("deg."@ != "deg/s"@);
}

proof fn lemma_unit_row_36()
    ensures
        unit_of_name("deg/sec"@) == Some(Unit::DegreePerSecond),
{
    reveal_strlit("deg/sec");
    assert("deg/sec"@.len() == 7);
    reveal_strlit("");
    assert(""@.len() == 0);
    assert(""@ != "deg/sec"@);
    reveal_strlit("%");
    assert("%"@.len() == 1);
    assert("%"@ != "deg/sec"@);
    reveal_strlit("s");
    assert("s"@.len() == 1);
    assert("s"@ != "deg/sec"@);
    reveal_strlit("ms");
    assert("ms"@.len() == 2);
    assert("ms"@ != "deg/sec"@);
    reveal_strlit("ns");
    assert("ns"@.len() == 2);
    assert("ns"@ != "deg/sec"@);
    reveal_strlit("fs");
    assert("fs"@.len() == 2);
    assert("fs"@ != "deg/sec"@);
    reveal_strlit("°");
    assert("°"@.len() == 1);
    assert("°"@ != "deg/sec"@);
    reveal_strlit("°/s");
    assert("°/s"@.len() == 3);
    assert("°/s"@ != "deg/sec"@);
    reveal_strlit("°C");
    assert("°C"@.len() == 2);
    assert("°C"@ != "deg/sec"@);
    reveal_strlit("FL");
    assert("FL"@.len() == 2);
    assert("FL"@ != "deg/sec"@);
    reveal_strlit("MHz");
    assert("MHz"@.len() == 3);
    assert("MHz"@ != "deg/sec"@);
    reveal_strlit("m");
    assert("m"@.len() == 1);
    assert("m"@ != "deg/sec"@);
    reveal_strlit("km");
    assert("km"@.len() == 2);
    assert("km"@ != "deg/sec"@);
    reveal_strlit("m/s");
    assert("m/s"@.len() == 3);
    assert("m/s"@ != "deg/sec"@);
    reveal_strlit("m/s2");
    assert("m/s2"@.len() == 4);
    assert("m/s2"@ != "deg/sec"@);
    reveal_strlit("Mach");
    assert("Mach"@.len() == 4);
    assert("Mach"@ != "deg/sec"@);
    reveal_strlit("NM");
    assert("NM"@.len() == 2);
    assert("NM"@ != "deg/sec"@);
    reveal_strlit("kt");
    assert("kt"@.len() == 2);
    assert("kt"@ != "deg/sec"@);
    reveal_strlit("NM/s");
    assert("NM/s"@.len() == 4);
    assert("NM/s"@ != "deg/sec"@);
    reveal_strlit("ft");
    assert("ft"@.len() == 2);
    assert("ft"@ != "deg/sec"@);
    reveal_strlit("ft/min");
    assert("ft/min"@.len() == 6);
    assert("ft/min"@ != "deg/sec"@);
    reveal_strlit("hPa");
    assert("hPa"@.len() == 3);
    assert("hPa"@ != "deg/sec"@);
    reveal_strlit("mb");
    assert("mb"@.len() == 2);
    assert("mb"@ != "deg/sec"@);
    reveal_strlit("dB");
    assert("dB"@.len() == 2);
    assert("dB"@ != "deg/sec"@);
    reveal_strlit("dBm");
    assert("dBm"@.len() == 3);
    assert("dBm"@ != "deg/sec"@);
    reveal_strlit("*2^(-6+f)");
    assert("*2^(-6+f)"@.len() == 9);
    assert("*2^(-6+f)"@ != "deg/sec"@);
    reveal_strlit("* 2^(-6+f)");
    assert("* 2^(-6+f)"@.len() == 10);
    assert("* 2^(-6+f)"@ != "deg/sec"@);
    reveal_strlit("* 2^(-7+f)");
    assert("* 2^(-7+f)"@.len() == 10);
    assert("* 2^(-7+f)"@ != "deg/sec"@);
    reveal_strlit("*10E-5");
    assert("*10E-5"@.len() == 6);
    assert("*10E-5"@ != "deg/sec"@);
    reveal_strlit("dBuV");
    assert("dBuV"@.len() == 4);
    assert("dBuV"@ != "deg/sec"@);
    reveal_strlit("min");
    assert("min"@.len() == 3);
    assert("min"@ != "deg/sec"@);
    reveal_strlit("KBytes/s");
    assert("KBytes/s"@.len() == 8);
    assert("KBytes/s"@ != "deg/sec"@);
    reveal_strlit("sec");
    assert("sec"@.len() == 3);
    assert("sec"@ != "deg/sec"@);
    reveal_strlit("deg");
    assert("deg"@.len() == 3);
    assert("deg"@ != "deg/sec"@);
    reveal_strlit("deg.");
    assert("deg."@.len() == 4);
    assert("deg."@ != "deg/sec"@);
    reveal_strlit("deg/s");
    assert("deg/s"@.len() == 5);
    assert("deg/s"@ != "deg/sec"@);
}

proof fn lemma_unit_row_37()
    ensures
        unit_of_name("C"@) == Some(Unit::Celsius),
{
    reveal_strlit("C");
    assert("C"@.len() == 1);
    reveal_strlit("");
    assert(""@.len() == 0);
    assert(""@ != "C"@);
    reveal_strlit("%");
    assert("%"@[0] == '%' && "C"@[0] == 'C');
    assert("%"@ != "C"@);
    reveal_strlit("s");
    assert("s"@[0] == 's' && "C"@[0] == 'C');
    assert("s"@ != "C"@);
    reveal_strlit("ms");
    assert("ms"@.len() == 2);
    assert("ms"@ != "C"@);
    reveal_strlit("ns");
    assert("ns"@.len() == 2);
    assert("ns"@ != "C"@);
    reveal_strlit("fs");
    assert("fs"@.len() == 2);
    assert("fs"@ != "C"@);
    reveal_strlit("°");
    assert("°"@[0] == '°' && "C"@[0] == 'C');
    assert("°"@ != "C"@);
    reveal_strlit("°/s");
    assert("°/s"@.len() == 3);
    assert("°/s"@ != "C"@);
    reveal_strlit("°C");
    assert("°C"@.len() == 2);
    assert("°C"@ != "C"@);
    reveal_strlit("FL");
    assert("FL"@.len() == 2);
    assert("FL"@ != "C"@);
    reveal_strlit("MHz");
    assert("MHz"@.len() == 3);
    assert("MHz"@ != "C"@);
    reveal_strlit("m");
    assert("m"@[0] == 'm' && "C"@[0] == 'C');
    assert("m"@ != "C"@);
    reveal_strlit("km");
    assert("km"@.len() == 2);
    assert("km"@ != "C"@);
    reveal_strlit("m/s");
    assert("m/s"@.len() == 3);
    assert("m/s"@ != "C"@);
    reveal_strlit("m/s2");
    assert("m/s2"@.len() == 4);
    assert("m/s2"@ != "C"@);
    reveal_strlit("Mach");
    assert("Mach"@.len() == 4);
    assert("Mach"@ != "C"@);
    reveal_strlit("NM");
    assert("NM"@.len() == 2);
    assert("NM"@ != "C"@);
    reveal_strlit("kt");
    assert("kt"@.len() == 2);
    assert("kt"@ != "C"@);
    reveal_strlit("NM/s");
    assert("NM/s"@.len() == 4);
    assert("NM/s"@ != "C"@);
    reveal_strlit("ft");
    assert("ft"@.len() == 2);
    assert("ft"@ != "C"@);
    reveal_strlit("ft/min");
    assert("ft/min"@.len() == 6);
    assert("ft/min"@ != "C"@);
    reveal_strlit("hPa");
    assert("hPa"@.len() == 3);
    assert("hPa"@ != "C"@);
    reveal_strlit("mb");
    assert("mb"@.len() == 2);
    assert("mb"@ != "C"@);
    reveal_strlit("dB");
    assert("dB"@.len() == 2);
    assert("dB"@ != "C"@);
    reveal_strlit("dBm");
    assert("dBm"@.len() == 3);
    assert("dBm"@ != "C"@);
    reveal_strlit("*2^(-6+f)");
    assert("*2^(-6+f)"@.len() == 9);
    assert("*2^(-6+f)"@ != "C"@);
    reveal_strlit("* 2^(-6+f)");
    assert("* 2^(-6+f)"@.len() == 10);
    assert("* 2^(-6+f)"@ != "C"@);
    reveal_strlit("* 2^(-7+f)");
    assert("* 2^(-7+f)"@.len() == 10);
    assert("* 2^(-7+f)"@ != "C"@);
    reveal_strlit("*10E-5");
    assert("*10E-5"@.len() == 6);
    assert("*10E-5"@ != "C"@);
    reveal_strlit("dBuV");
    assert("dBuV"@.len() == 4);
    assert("dBuV"@ != "C"@);
    reveal_strlit("min");
    assert("min"@.len() == 3);
    assert("min"@ != "C"@);
    reveal_strlit("KBytes/s");
    assert("KBytes/s"@.len() == 8);
    assert("KBytes/s"@ != "C"@);
    reveal_strlit("sec");
    assert("sec"@.len() == 3);
    assert("sec"@ != "C"@);
    reveal_strlit("deg");
    assert("deg"@.len() == 3);
    assert("deg"@ != "C"@);
    reveal_strlit("deg.");
    assert("deg."@.len() == 4);
    assert("deg."@ != "C"@);
    reveal_strlit("deg/s");
    assert("deg/s"@.len() == 5);
    assert("deg/s"@ != "C"@);
    reveal_strlit("deg/sec");
    assert("deg/sec"@.len() == 7);
    assert("deg/sec"@ != "C"@);
}

proof fn lemma_unit_row_38()
    ensures
        unit_of_name("deg C"@) == Some(Unit::Celsius),
{
    reveal_strlit("deg C");
    assert("deg C"@.len() == 5);
    reveal_strlit("");
    assert(""@.len() == 0);
    assert(""@ != "deg C"@);
    reveal_strlit("%");
    assert("%"@.len() == 1);
    assert("%"@ != "deg C"@);
    reveal_strlit("s");
    assert("s"@.len() == 1);
    assert("s"@ != "deg C"@);
    reveal_strlit("ms");
    assert("ms"@.len() == 2);
    assert("ms"@ != "deg C"@);
    reveal_strlit("ns");
    assert("ns"@.len() == 2);
    assert("ns"@ != "deg C"@);
    reveal_strlit("fs");
    assert("fs"@.len() == 2);
    assert("fs"@ != "deg C"@);
    reveal_strlit("°");
    assert("°"@.len() == 1);
    assert("°"@ != "deg C"@);
    reveal_strlit("°/s");
    assert("°/s"@.len() == 3);
    assert("°/s"@ != "deg C"@);
    reveal_strlit("°C");
    assert("°C"@.len() == 2);
    assert("°C"@ != "deg C"@);
    reveal_strlit("FL");
    assert("FL"@.len() == 2);
    assert("FL"@ != "deg C"@);
    reveal_strlit("MHz");
    assert("MHz"@.len() == 3);
    assert("MHz"@ != "deg C"@);
    reveal_strlit("m");
    assert("m"@.len() == 1);
    assert("m"@ != "deg C"@);
    reveal_strlit("km");
    assert("km"@.len() == 2);
    assert("km"@ != "deg C"@);
    reveal_strlit("m/s");
    assert("m/s"@.len() == 3);
    assert("m/s"@ != "deg C"@);
    reveal_strlit("m/s2");
    assert("m/s2"@.len() == 4);
    assert("m/s2"@ != "deg C"@);
    reveal_strlit("Mach");
    assert("Mach"@.len() == 4);
    assert("Mach"@ != "deg C"@);
    reveal_strlit("NM");
    assert("NM"@.len() == 2);
    assert("NM"@ != "deg C"@);
    reveal_strlit("kt");
    assert("kt"@.len() == 2);
    assert("kt"@ != "deg C"@);
    reveal_strlit("NM/s");
    assert("NM/s"@.len() == 4);
    assert("NM/s"@ != "deg C"@);
    reveal_strlit("ft");
    assert("ft"@.len() == 2);
    assert("ft"@ != "deg C"@);
    reveal_strlit("ft/min");
    assert("ft/min"@.len() == 6);
    assert("ft/min"@ != "deg C"@);
    reveal_strlit("hPa");
    assert("hPa"@.len() == 3);
    assert("hPa"@ != "deg C"@);
    reveal_strlit("mb");
    assert("mb"@.len() == 2);
    assert("mb"@ != "deg C"@);
    reveal_strlit("dB");
    assert("dB"@.len() == 2);
    assert("dB"@ != "deg C"@);
    reveal_strlit("dBm");
    assert("dBm"@.len() == 3);
    assert("dBm"@ != "deg C"@);
    reveal_strlit("*2^(-6+f)");
    assert("*2^(-6+f)"@.len() == 9);
    assert("*2^(-6+f)"@ != "deg C"@);
    reveal_strlit("* 2^(-6+f)");
    assert("* 2^(-6+f)"@.len() == 10);
    assert("* 2^(-6+f)"@ != "deg C"@);
    reveal_strlit("* 2^(-7+f)");
    assert("* 2^(-7+f)"@.len() == 10);
    assert("* 2^(-7+f)"@ != "deg C"@);
    reveal_strlit("*10E-5");
    assert("*10E-5"@.len() == 6);
    assert("*10E-5"@ != "deg C"@);
    reveal_strlit("dBuV");
    assert("dBuV"@.len() == 4);
    assert("dBuV"@ != "deg C"@);
    reveal_strlit("min");
    assert("min"@.len() == 3);
    assert("min"@ != "deg C"@);
    reveal_strlit("KBytes/s");
    assert("KBytes/s"@.len() == 8);
    assert("KBytes/s"@ != "deg C"@);
    reveal_strlit("sec");
    assert("sec"@.len() == 3);
    assert("sec"@ != "deg C"@);
    reveal_strlit("deg");
    assert("deg"@.len() == 3);
    assert("deg"@ != "deg C"@);
    reveal_strlit("deg.");
    assert("deg."@.len() == 4);
    assert("deg."@ != "deg C"@);
    reveal_strlit("deg/s");
    assert("deg/s"@[3] == '/' && "deg C"@[3] == ' ');
    assert("deg/s"@ != "deg C"@);
    reveal_strlit("deg/sec");
    assert("deg/sec"@.len() == 7);
    assert("deg/sec"@ != "deg C"@);
    reveal_strlit("C");
    assert("C"@.len() == 1);
    assert("C"@ != "deg C"@);
}

proof fn lemma_unit_row_39()
    ensures
        unit_of_name("m/sec"@) == Some(Unit::MeterPerSecond),
{
    reveal_strlit("m/sec");
    assert("m/sec"@.len() == 5);
    reveal_strlit("");
    assert(""@.len() == 0);
    assert(""@ != "m/sec"@);
    reveal_strlit("%");
    assert("%"@.len() == 1);
    assert("%"@ != "m/sec"@);
    reveal_strlit("s");
    assert("s"@.len() == 1);
    assert("s"@ != "m/sec"@);
    reveal_strlit("ms");
    assert("ms"@.len() == 2);
    assert("ms"@ != "m/sec"@);
    reveal_strlit("ns");
    assert("ns"@.len() == 2);
    assert("ns"@ != "m/sec"@);
    reveal_strlit("fs");
    assert("fs"@.len() == 2);
    assert("fs"@ != "m/sec"@);
    reveal_strlit("°");
    assert("°"@.len() == 1);
    assert("°"@ != "m/sec"@);
    reveal_strlit("°/s");
    assert("°/s"@.len() == 3);
    assert("°/s"@ != "m/sec"@);
    reveal_strlit("°C");
    assert("°C"@.len() == 2);
    assert("°C"@ != "m/sec"@);
    reveal_strlit("FL");
    assert("FL"@.len() == 2);
    assert("FL"@ != "m/sec"@);
    reveal_strlit("MHz");
    assert("MHz"@.len() == 3);
    assert("MHz"@ != "m/sec"@);
    reveal_strlit("m");
    assert("m"@.len() == 1);
    assert("m"@ != "m/sec"@);
    reveal_strlit("km");
    assert("km"@.len() == 2);
    assert("km"@ != "m/sec"@);
    reveal_strlit("m/s");
    assert("m/s"@.len() == 3);
    assert("m/s"@ != "m/sec"@);
    reveal_strlit("m/s2");
    assert("m/s2"@.len() == 4);
    assert("m/s2"@ != "m/sec"@);
    reveal_strlit("Mach");
    assert("Mach"@.len() == 4);
    assert("Mach"@ != "m/sec"@);
    reveal_strlit("NM");
    assert("NM"@.len() == 2);
    assert("NM"@ != "m/sec"@);
    reveal_strlit("kt");
    assert("kt"@.len() == 2);
    assert("kt"@ != "m/sec"@);
    reveal_strlit("NM/s");
    assert("NM/s"@.len() == 4);
    assert("NM/s"@ != "m/sec"@);
    reveal_strlit("ft");
    assert("ft"@.len() == 2);
    assert("ft"@ != "m/sec"@);
    reveal_strlit("ft/min");
    assert("ft/min"@.len() == 6);
    assert("ft/min"@ != "m/sec"@);
    reveal_strlit("hPa");
    assert("hPa"@.len() == 3);
    assert("hPa"@ != "m/sec"@);
    reveal_strlit("mb");
    assert("mb"@.len() == 2);
    assert("mb"@ != "m/sec"@);
    reveal_strlit("dB");
    assert("dB"@.len() == 2);
    assert("dB"@ != "m/sec"@);
    reveal_strlit("dBm");
    assert("dBm"@.len() == 3);
    assert("dBm"@ != "m/sec"@);
    reveal_strlit("*2^(-6+f)");
    assert("*2^(-6+f)"@.len() == 9);
    assert("*2^(-6+f)"@ != "m/sec"@);
    reveal_strlit("* 2^(-6+f)");
    assert("* 2^(-6+f)"@.len() == 10);
    assert("* 2^(-6+f)"@ != "m/sec"@);
    reveal_strlit("* 2^(-7+f)");
    assert("* 2^(-7+f)"@.len() == 10);
    assert("* 2^(-7+f)"@ != "m/sec"@);
    reveal_strlit("*10E-5");
    assert("*10E-5"@.len() == 6);
    assert("*10E-5"@ != "m/sec"@);
    reveal_strlit("dBuV");
    assert("dBuV"@.len() == 4);
    assert("dBuV"@ != "m/sec"@);
    reveal_strlit("min");
    assert("min"@.len() == 3);
    assert("min"@ != "m/sec"@);
    reveal_strlit("KBytes/s");
    assert("KBytes/s"@.len() == 8);
    assert("KBytes/s"@ != "m/sec"@);
    reveal_strlit("sec");
    assert("sec"@.len() == 3);
    assert("sec"@ != "m/sec"@);
    reveal_strlit("deg");
    assert("deg"@.len() == 3);
    assert("deg"@ != "m/sec"@);
    reveal_strlit("deg.");
    assert("deg."@.len() == 4);
    assert("deg."@ != "m/sec"@);
    reveal_strlit("deg/s");
    assert("deg/s"@[0] == 'd' && "m/sec"@[0] == 'm');
    assert("deg/s"@ != "m/sec"@);
    reveal_strlit("deg/sec");
    assert("deg/sec"@.len() == 7);
    assert("deg/sec"@ != "m/sec"@);
    reveal_strlit("C");
    assert("C"@.len() == 1);
    assert("C"@ != "m/sec"@);
    reveal_strlit("deg C");
    assert("deg C"@[0] == 'd' && "m/sec"@[0] == 'm');
    assert("deg C"@ != "m/sec"@);
}

proof fn lemma_unit_row_40()
    ensures
        unit_of_name("m/s^2"@) == Some(Unit::MeterPerSecondSq),
{
    reveal_strlit("m/s^2");
    assert("m/s^2"@.len() == 5);
    reveal_strlit("");
    assert(""@.len() == 0);
    assert(""@ != "m/s^2"@);
    reveal_strlit("%");
    assert("%"@.len() == 1);
    assert("%"@ != "m/s^2"@);
    reveal_strlit("s");
    assert("s"@.len() == 1);
    assert("s"@ != "m/s^2"@);
    reveal_strlit("ms");
    assert("ms"@.len() == 2);
    assert("ms"@ != "m/s^2"@);
    reveal_strlit("ns");
    assert("ns"@.len() == 2);
    assert("ns"@ != "m/s^2"@);
    reveal_strlit("fs");
    assert("fs"@.len() == 2);
    assert("fs"@ != "m/s^2"@);
    reveal_strlit("°");
    assert("°"@.len() == 1);
    assert("°"@ != "m/s^2"@);
    reveal_strlit("°/s");
    assert("°/s"@.len() == 3);
    assert("°/s"@ != "m/s^2"@);
    reveal_strlit("°C");
    assert("°C"@.len() == 2);
    assert("°C"@ != "m/s^2"@);
    reveal_strlit("FL");
    assert("FL"@.len() == 2);
    assert("FL"@ != "m/s^2"@);
    reveal_strlit("MHz");
    assert("MHz"@.len() == 3);
    assert("MHz"@ != "m/s^2"@);
    reveal_strlit("m");
    assert("m"@.len() == 1);
    assert("m"@ != "m/s^2"@);
    reveal_strlit("km");
    assert("km"@.len() == 2);
    assert("km"@ != "m/s^2"@);
    reveal_strlit("m/s");
    assert("m/s"@.len() == 3);
    assert("m/s"@ != "m/s^2"@);
    reveal_strlit("m/s2");
    assert("m/s2"@.len() == 4);
    assert("m/s2"@ != "m/s^2"@);
    reveal_strlit("Mach");
    assert("Mach"@.len() == 4);
    assert("Mach"@ != "m/s^2"@);
    reveal_strlit("NM");
    assert("NM"@.len() == 2);
    assert("NM"@ != "m/s^2"@);
    reveal_strlit("kt");
    assert("kt"@.len() == 2);
    assert("kt"@ != "m/s^2"@);
    reveal_strlit("NM/s");
    assert("NM/s"@.len() == 4);
    assert("NM/s"@ != "m/s^2"@);
    reveal_strlit("ft");
    assert("ft"@.len() == 2);
    assert("ft"@ != "m/s^2"@);
    reveal_strlit("ft/min");
    assert("ft/min"@.len() == 6);
    assert("ft/min"@ != "m/s^2"@);
    reveal_strlit("hPa");
    assert("hPa"@.len() == 3);
    assert("hPa"@ != "m/s^2"@);
    reveal_strlit("mb");
    assert("mb"@.len() == 2);
    assert("mb"@ != "m/s^2"@);
    reveal_strlit("dB");
    assert("dB"@.len() == 2);
    assert("dB"@ != "m/s^2"@);
    reveal_strlit("dBm");
    assert("dBm"@.len() == 3);
    assert("dBm"@ != "m/s^2"@);
    reveal_strlit("*2^(-6+f)");
    assert("*2^(-6+f)"@.len() == 9);
    assert("*2^(-6+f)"@ != "m/s^2"@);
    reveal_strlit("* 2^(-6+f)");
    assert("* 2^(-6+f)"@.len() == 10);
    assert("* 2^(-6+f)"@ != "m/s^2"@);
    reveal_strlit("* 2^(-7+f)");
    assert("* 2^(-7+f)"@.len() == 10);
    assert("* 2^(-7+f)"@ != "m/s^2"@);
    reveal_strlit("*10E-5");
    assert("*10E-5"@.len() == 6);
    assert("*10E-5"@ != "m/s^2"@);
    reveal_strlit("dBuV");
    assert("dBuV"@.len() == 4);
    assert("dBuV"@ != "m/s^2"@);
    reveal_strlit("min");
    assert("min"@.len() == 3);
    assert("min"@ != "m/s^2"@);
    reveal_strlit("KBytes/s");
    assert("KBytes/s"@.len() == 8);
    assert("KBytes/s"@ != "m/s^2"@);
    reveal_strlit("sec");
    assert("sec"@.len() == 3);
    assert("sec"@ != "m/s^2"@);
    reveal_strlit("deg");
    assert("deg"@.len() == 3);
    assert("deg"@ != "m/s^2"@);
    reveal_strlit("deg.");
    assert("deg."@.len() == 4);
    assert("deg."@ != "m/s^2"@);
    reveal_strlit("deg/s");
    assert("deg/s"@[0] == 'd' && "m/s^2"@[0] == 'm');
    assert("deg/s"@ != "m/s^2"@);
    reveal_strlit("deg/sec");
    assert("deg/sec"@.len() == 7);
    assert("deg/sec"@ != "m/s^2"@);
    reveal_strlit("C");
    assert("C"@.len() == 1);
    assert("C"@ != "m/s^2"@);
    reveal_strlit("deg C");
    assert("deg C"@[0] == 'd' && "m/s^2"@[0] == 'm');
    assert("deg C"@ != "m/s^2"@);
    reveal_strlit("m/sec");
    assert("m/sec"@[3] == 'e' && "m/s^2"@[3] == '^');
    assert("m/sec"@ != "m/s^2"@);
}

proof fn lemma_unit_row_41()
    ensures
        unit_of_name("m/s²"@) == Some(Unit::MeterPerSecondSq),
{
    reveal_strlit("m/s²");
    assert("m/s²"@.len() == 4);
    reveal_strlit("");
    assert(""@.len() == 0);
    assert(""@ != "m/s²"@);
    reveal_strlit("%");
    assert("%"@.len() == 1);
    assert("%"@ != "m/s²"@);
    reveal_strlit("s");
    assert("s"@.len() == 1);
    assert("s"@ != "m/s²"@);
    reveal_strlit("ms");
    assert("ms"@.len() == 2);
    assert("ms"@ != "m/s²"@);
    reveal_strlit("ns");
    assert("ns"@.len() == 2);
    assert("ns"@ != "m/s²"@);
    reveal_strlit("fs");
    assert("fs"@.len() == 2);
    assert("fs"@ != "m/s²"@);
    reveal_strlit("°");
    assert("°"@.len() == 1);
    assert("°"@ != "m/s²"@);
    reveal_strlit("°/s");
    assert("°/s"@.len() == 3);
    assert("°/s"@ != "m/s²"@);
    reveal_strlit("°C");
    assert("°C"@.len() == 2);
    assert("°C"@ != "m/s²"@);
    reveal_strlit("FL");
    assert("FL"@.len() == 2);
    assert("FL"@ != "m/s²"@);
    reveal_strlit("MHz");
    assert("MHz"@.len() == 3);
    assert("MHz"@ != "m/s²"@);
    reveal_strlit("m");
    assert("m"@.len() == 1);
    assert("m"@ != "m/s²"@);
    reveal_strlit("km");
    assert("km"@.len() == 2);
    assert("km"@ != "m/s²"@);
    reveal_strlit("m/s");
    assert("m/s"@.len() == 3);
    assert("m/s"@ != "m/s²"@);
    reveal_strlit("m/s2");
    assert("m/s2"@[3] == '2' && "m/s²"@[3] == '²');
    assert("m/s2"@ != "m/s²"@);
    reveal_strlit("Mach");
    assert("Mach"@[0] == 'M' && "m/s²"@[0] == 'm');
    assert("Mach"@ != "m/s²"@);
    reveal_strlit("NM");
    assert("NM"@.len() == 2);
    assert("NM"@ != "m/s²"@);
    reveal_strlit("kt");
    assert("kt"@.len() == 2);
    assert("kt"@ != "m/s²"@);
    reveal_strlit("NM/s");
    assert("NM/s"@[0] == 'N' && "m/s²"@[0] == 'm');
    assert("NM/s"@ != "m/s²"@);
    reveal_strlit("ft");
    assert("ft"@.len() == 2);
    assert("ft"@ != "m/s²"@);
    reveal_strlit("ft/min");
    assert("ft/min"@.len() == 6);
    assert("ft/min"@ != "m/s²"@);
    reveal_strlit("hPa");
    assert("hPa"@.len() == 3);
    assert("hPa"@ != "m/s²"@);
    reveal_strlit("mb");
    assert("mb"@.len() == 2);
    assert("mb"@ != "m/s²"@);
    reveal_strlit("dB");
    assert("dB"@.len() == 2);
    assert("dB"@ != "m/s²"@);
    reveal_strlit("dBm");
    assert("dBm"@.len() == 3);
    assert("dBm"@ != "m/s²"@);
    reveal_strlit("*2^(-6+f)");
    assert("*2^(-6+f)"@.len() == 9);
    assert("*2^(-6+f)"@ != "m/s²"@);
    reveal_strlit("* 2^(-6+f)");
    assert("* 2^(-6+f)"@.len() == 10);
    assert("* 2^(-6+f)"@ != "m/s²"@);
    reveal_strlit("* 2^(-7+f)");
    assert("* 2^(-7+f)"@.len() == 10);
    assert("* 2^(-7+f)"@ != "m/s²"@);
    reveal_strlit("*10E-5");
    assert("*10E-5"@.len() == 6);
    assert("*10E-5"@ != "m/s²"@);
    reveal_strlit("dBuV");
    assert("dBuV"@[0] == 'd' && "m/s²"@[0] == 'm');
    assert("dBuV"@ != "m/s²"@);
    reveal_strlit("min");
    assert("min"@.len() == 3);
    assert("min"@ != "m/s²"@);
    reveal_strlit("KBytes/s");
    assert("KBytes/s"@.len() == 8);
    assert("KBytes/s"@ != "m/s²"@);
    reveal_strlit("sec");
    assert("sec"@.len() == 3);
    assert("sec"@ != "m/s²"@);
    reveal_strlit("deg");
    assert("deg"@.len() == 3);
    assert("deg"@ != "m/s²"@);
    reveal_strlit("deg.");
    assert("deg."@[0] == 'd' && "m/s²"@[0] == 'm');
    assert("deg."@ != "m/s²"@);
    reveal_strlit("deg/s");
    assert("deg/s"@.len() == 5);
    assert("deg/s"@ != "m/s²"@);
    reveal_strlit("deg/sec");
    assert("deg/sec"@.len() == 7);
    assert("deg/sec"@ != "m/s²"@);
    reveal_strlit("C");
    assert("C"@.len() == 1);
    assert("C"@ != "m/s²"@);
    reveal_strlit("deg C");
    assert("deg C"@.len() == 5);
    assert("deg C"@ != "m/s²"@);
    reveal_strlit("m/sec");
    assert("m/sec"@.len() == 5);
    assert("m/sec"@ != "m/s²"@);
    reveal_strlit("m/s^2");
    assert("m/s^2"@.len() == 5);
    assert("m/s^2"@ != "m/s²"@);
}

proof fn lemma_unit_row_42()
    ensures
        unit_of_name("Nm"@) == Some(Unit::NauticalMile),
{
    reveal_strlit("Nm");
    assert("Nm"@.len() == 2);
    reveal_strlit("");
    assert(""@.len() == 0);
    assert(""@ != "Nm"@);
    reveal_strlit("%");
    assert("%"@.len() == 1);
    assert("%"@ != "Nm"@);
    reveal_strlit("s");
    assert("s"@.len() == 1);
    assert("s"@ != "Nm"@);
    reveal_strlit("ms");
    assert("ms"@[0] == 'm' && "Nm"@[0] == 'N');
    assert("ms"@ != "Nm"@);
    reveal_strlit("ns");
    assert("ns"@[0] == 'n' && "Nm"@[0] == 'N');
    assert("ns"@ != "Nm"@);
    reveal_strlit("fs");
    assert("fs"@[0] == 'f' && "Nm"@[0] == 'N');
    assert("fs"@ != "Nm"@);
    reveal_strlit("°");
    assert("°"@.len() == 1);
    assert("°"@ != "Nm"@);
    reveal_strlit("°/s");
    assert("°/s"@.len() == 3);
    assert("°/s"@ != "Nm"@);
    reveal_strlit("°C");
    assert("°C"@[0] == '°' && "Nm"@[0] == 'N');
    assert("°C"@ != "Nm"@);
    reveal_strlit("FL");
    assert("FL"@[0] == 'F' && "Nm"@[0] == 'N');
    assert("FL"@ != "Nm"@);
    reveal_strlit("MHz");
    assert("MHz"@.len() == 3);
    assert("MHz"@ != "Nm"@);
    reveal_strlit("m");
    assert("m"@.len() == 1);
    assert("m"@ != "Nm"@);
    reveal_strlit("km");
    assert("km"@[0] == 'k' && "Nm"@[0] == 'N');
    assert("km"@ != "Nm"@);
    reveal_strlit("m/s");
    assert("m/s"@.len() == 3);
    assert("m/s"@ != "Nm"@);
    reveal_strlit("m/s2");
    assert("m/s2"@.len() == 4);
    assert("m/s2"@ != "Nm"@);
    reveal_strlit("Mach");
    assert("Mach"@.len() == 4);
    assert("Mach"@ != "Nm"@);
    reveal_strlit("NM");
    assert("NM"@[1] == 'M' && "Nm"@[1] == 'm');
    assert("NM"@ != "Nm"@);
    reveal_strlit("kt");
    assert("kt"@[0] == 'k' && "Nm"@[0] == 'N');
    assert("kt"@ != "Nm"@);
    reveal_strlit("NM/s");
    assert("NM/s"@.len() == 4);
    assert("NM/s"@ != "Nm"@);
    reveal_strlit("ft");
    assert("ft"@[0] == 'f' && "Nm"@[0] == 'N');
    assert("ft"@ != "Nm"@);
    reveal_strlit("ft/min");
    assert("ft/min"@.len() == 6);
    assert("ft/min"@ != "Nm"@);
    reveal_strlit("hPa");
    assert("hPa"@.len() == 3);
    assert("hPa"@ != "Nm"@);
    reveal_strlit("mb");
    assert("mb"@[0] == 'm' && "Nm"@[0] == 'N');
    assert("mb"@ != "Nm"@);
    reveal_strlit("dB");
    assert("dB"@[0] == 'd' && "Nm"@[0] == 'N');
    assert("dB"@ != "Nm"@);
    reveal_strlit("dBm");
    assert("dBm"@.len() == 3);
    assert("dBm"@ != "Nm"@);
    reveal_strlit("*2^(-6+f)");
    assert("*2^(-6+f)"@.len() == 9);
    assert("*2^(-6+f)"@ != "Nm"@);
    reveal_strlit("* 2^(-6+f)");
    assert("* 2^(-6+f)"@.len() == 10);
    assert("* 2^(-6+f)"@ != "Nm"@);
    reveal_strlit("* 2^(-7+f)");
    assert("* 2^(-7+f)"@.len() == 10);
    assert("* 2^(-7+f)"@ != "Nm"@);
    reveal_strlit("*10E-5");
    assert("*10E-5"@.len() == 6);
    assert("*10E-5"@ != "Nm"@);
    reveal_strlit("dBuV");
    assert("dBuV"@.len() == 4);
    assert("dBuV"@ != "Nm"@);
    reveal_strlit("min");
    assert("min"@.len() == 3);
    assert("min"@ != "Nm"@);
    reveal_strlit("KBytes/s");
    assert("KBytes/s"@.len() == 8);
    assert("KBytes/s"@ != "Nm"@);
    reveal_strlit("sec");
    assert("sec"@.len() == 3);
    assert("sec"@ != "Nm"@);
    reveal_strlit("deg");
    assert("deg"@.len() == 3);
    assert("deg"@ != "Nm"@);
    reveal_strlit("deg.");
    assert("deg."@.len() == 4);
    assert("deg."@ != "Nm"@);
    reveal_strlit("deg/s");
    assert("deg/s"@.len() == 5);
    assert("deg/s"@ != "Nm"@);
    reveal_strlit("deg/sec");
    assert("deg/sec"@.len() == 7);
    assert("deg/sec"@ != "Nm"@);
    reveal_strlit("C");
    assert("C"@.len() == 1);
    assert("C"@ != "Nm"@);
    reveal_strlit("deg C");
    assert("deg C"@.len() == 5);
    assert("deg C"@ != "Nm"@);
    reveal_strlit("m/sec");
    assert("m/sec"@.len() == 5);
    assert("m/sec"@ != "Nm"@);
    reveal_strlit("m/s^2");
    assert("m/s^2"@.len() == 5);
    assert("m/s^2"@ != "Nm"@);
    reveal_strlit("m/s²");
    assert("m/s²"@.len() == 4);
    assert("m/s²"@ != "Nm"@);
}

proof fn lemma_unit_row_43()
    ensures
        unit_of_name("knot"@) == Some(Unit::Knot),
{
    reveal_strlit("knot");
    assert("knot"@.len() == 4);
    reveal_strlit("");
    assert(""@.len() == 0);
    assert(""@ != "knot"@);
    reveal_strlit("%");
    assert("%"@.len() == 1);
    assert("%"@ != "knot"@);
    reveal_strlit("s");
    assert("s"@.len() == 1);
    assert("s"@ != "knot"@);
    reveal_strlit("ms");
    assert("ms"@.len() == 2);
    assert("ms"@ != "knot"@);
    reveal_strlit("ns");
    assert("ns"@.len() == 2);
    assert("ns"@ != "knot"@);
    reveal_strlit("fs");
    assert("fs"@.len() == 2);
    assert("fs"@ != "knot"@);
    reveal_strlit("°");
    assert("°"@.len() == 1);
    assert("°"@ != "knot"@);
    reveal_strlit("°/s");
    assert("°/s"@.len() == 3);
    assert("°/s"@ != "knot"@);
    reveal_strlit("°C");
    assert("°C"@.len() == 2);
    assert("°C"@ != "knot"@);
    reveal_strlit("FL");
    assert("FL"@.len() == 2);
    assert("FL"@ != "knot"@);
    reveal_strlit("MHz");
    assert("MHz"@.len() == 3);
    assert("MHz"@ != "knot"@);
    reveal_strlit("m");
    assert("m"@.len() == 1);
    assert("m"@ != "knot"@);
    reveal_strlit("km");
    assert("km"@.len() == 2);
    assert("km"@ != "knot"@);
    reveal_strlit("m/s");
    assert("m/s"@.len() == 3);
    assert("m/s"@ != "knot"@);
    reveal_strlit("m/s2");
    assert("m/s2"@[0] == 'm' && "knot"@[0] == 'k');
    assert("m/s2"@ != "knot"@);
    reveal_strlit("Mach");
    assert("Mach"@[0] == 'M' && "knot"@[0] == 'k');
    assert("Mach"@ != "knot"@);
    reveal_strlit("NM");
    assert("NM"@.len() == 2);
    assert("NM"@ != "knot"@);
    reveal_strlit("kt");
    assert("kt"@.len() == 2);
    assert("kt"@ != "knot"@);
    reveal_strlit("NM/s");
    assert("NM/s"@[0] == 'N' && "knot"@[0] == 'k');
    assert("NM/s"@ != "knot"@);
    reveal_strlit("ft");
    assert("ft"@.len() == 2);
    assert("ft"@ != "knot"@);
    reveal_strlit("ft/min");
    assert("ft/min"@.len() == 6);
    assert("ft/min"@ != "knot"@);
    reveal_strlit("hPa");
    assert("hPa"@.len() == 3);
    assert("hPa"@ != "knot"@);
    reveal_strlit("mb");
    assert("mb"@.len() == 2);
    assert("mb"@ != "knot"@);
    reveal_strlit("dB");
    assert("dB"@.len() == 2);
    assert("dB"@ != "knot"@);
    reveal_strlit("dBm");
    assert("dBm"@.len() == 3);
    assert("dBm"@ != "knot"@);
    reveal_strlit("*2^(-6+f)");
    assert("*2^(-6+f)"@.len() == 9);
    assert("*2^(-6+f)"@ != "knot"@);
    reveal_strlit("* 2^(-6+f)");
    assert("* 2^(-6+f)"@.len() == 10);
    assert("* 2^(-6+f)"@ != "knot"@);
    reveal_strlit("* 2^(-7+f)");
    assert("* 2^(-7+f)"@.len() == 10);
    assert("* 2^(-7+f)"@ != "knot"@);
    reveal_strlit("*10E-5");
    assert("*10E-5"@.len() == 6);
    assert("*10E-5"@ != "knot"@);
    reveal_strlit("dBuV");
    assert("dBuV"@[0] == 'd' && "knot"@[0] == 'k');
    assert("dBuV"@ != "knot"@);
    reveal_strlit("min");
    assert("min"@.len() == 3);
    assert("min"@ != "knot"@);
    reveal_strlit("KBytes/s");
    assert("KBytes/s"@.len() == 8);
    assert("KBytes/s"@ != "knot"@);
    reveal_strlit("sec");
    assert("sec"@.len() == 3);
    assert("sec"@ != "knot"@);
    reveal_strlit("deg");
    assert("deg"@.len() == 3);
    assert("deg"@ != "knot"@);
    reveal_strlit("deg.");
    assert("deg."@[0] == 'd' && "knot"@[0] == 'k');
    assert("deg."@ != "knot"@);
    reveal_strlit("deg/s");
    assert("deg/s"@.len() == 5);
    assert("deg/s"@ != "knot"@);
    reveal_strlit("deg/sec");
    assert("deg/sec"@.len() == 7);
    assert("deg/sec"@ != "knot"@);
    reveal_strlit("C");
    assert("C"@.len() == 1);
    assert("C"@ != "knot"@);
    reveal_strlit("deg C");
    assert("deg C"@.len() == 5);
    assert("deg C"@ != "knot"@);
    reveal_strlit("m/sec");
    assert("m/sec"@.len() == 5);
    assert("m/sec"@ != "knot"@);
    reveal_strlit("m/s^2");
    assert("m/s^2"@.len() == 5);
    assert("m/s^2"@ != "knot"@);
    reveal_strlit("m/s²");
    assert("m/s²"@[0] == 'm' && "knot"@[0] == 'k');
    assert("m/s²"@ != "knot"@);
    reveal_strlit("Nm");
    assert("Nm"@.len() == 2);
    assert("Nm"@ != "knot"@);
}

proof fn lemma_unit_row_44()
    ensures
        unit_of_name("feet/minute"@) == Some(Unit::FeetPerMinute),
{
    reveal_strlit("feet/minute");
    assert("feet/minute"@.len() == 11);
    reveal_strlit("");
    assert(""@.len() == 0);
    assert(""@ != "feet/minute"@);
    reveal_strlit("%");
    assert("%"@.len() == 1);
    assert("%"@ != "feet/minute"@);
    reveal_strlit("s");
    assert("s"@.len() == 1);
    assert("s"@ != "feet/minute"@);
    reveal_strlit("ms");
    assert("ms"@.len() == 2);
    assert("ms"@ != "feet/minute"@);
    reveal_strlit("ns");
    assert("ns"@.len() == 2);
    assert("ns"@ != "feet/minute"@);
    reveal_strlit("fs");
    assert("fs"@.len() == 2);
    assert("fs"@ != "feet/minute"@);
    reveal_strlit("°");
    assert("°"@.len() == 1);
    assert("°"@ != "feet/minute"@);
    reveal_strlit("°/s");
    assert("°/s"@.len() == 3);
    assert("°/s"@ != "feet/minute"@);
    reveal_strlit("°C");
    assert("°C"@.len() == 2);
    assert("°C"@ != "feet/minute"@);
    reveal_strlit("FL");
    assert("FL"@.len() == 2);
    assert("FL"@ != "feet/minute"@);
    reveal_strlit("MHz");
    assert("MHz"@.len() == 3);
    assert("MHz"@ != "feet/minute"@);
    reveal_strlit("m");
    assert("m"@.len() == 1);
    assert("m"@ != "feet/minute"@);
    reveal_strlit("km");
    assert("km"@.len() == 2);
    assert("km"@ != "feet/minute"@);
    reveal_strlit("m/s");
    assert("m/s"@.len() == 3);
    assert("m/s"@ != "feet/minute"@);
    reveal_strlit("m/s2");
    assert("m/s2"@.len() == 4);
    assert("m/s2"@ != "feet/minute"@);
    reveal_strlit("Mach");
    assert("Mach"@.len() == 4);
    assert("Mach"@ != "feet/minute"@);
    reveal_strlit("NM");
    assert("NM"@.len() == 2);
    assert("NM"@ != "feet/minute"@);
    reveal_strlit("kt");
    assert("kt"@.len() == 2);
    assert("kt"@ != "feet/minute"@);
    reveal_strlit("NM/s");
    assert("NM/s"@.len() == 4);
    assert("NM/s"@ != "feet/minute"@);
    reveal_strlit("ft");
    assert("ft"@.len() == 2);
    assert("ft"@ != "feet/minute"@);
    reveal_strlit("ft/min");
    assert("ft/min"@.len() == 6);
    assert("ft/min"@ != "feet/minute"@);
    reveal_strlit("hPa");
    assert("hPa"@.len() == 3);
    assert("hPa"@ != "feet/minute"@);
    reveal_strlit("mb");
    assert("mb"@.len() == 2);
    assert("mb"@ != "feet/minute"@);
    reveal_strlit("dB");
    assert("dB"@.len() == 2);
    assert("dB"@ != "feet/minute"@);
    reveal_strlit("dBm");
    assert("dBm"@.len() == 3);
    assert("dBm"@ != "feet/minute"@);
    reveal_strlit("*2^(-6+f)");
    assert("*2^(-6+f)"@.len() == 9);
    assert("*2^(-6+f)"@ != "feet/minute"@);
    reveal_strlit("* 2^(-6+f)");
    assert("* 2^(-6+f)"@.len() == 10);
    assert("* 2^(-6+f)"@ != "feet/minute"@);
    reveal_strlit("* 2^(-7+f)");
    assert("* 2^(-7+f)"@.len() == 10);
    assert("* 2^(-7+f)"@ != "feet/minute"@);
    reveal_strlit("*10E-5");
    assert("*10E-5"@.len() == 6);
    assert("*10E-5"@ != "feet/minute"@);
    reveal_strlit("dBuV");
    assert("dBuV"@.len() == 4);
    assert("dBuV"@ != "feet/minute"@);
    reveal_strlit("min");
    assert("min"@.len() == 3);
    assert("min"@ != "feet/minute"@);
    reveal_strlit("KBytes/s");
    assert("KBytes/s"@.len() == 8);
    assert("KBytes/s"@ != "feet/minute"@);
    reveal_strlit("sec");
    assert("sec"@.len() == 3);
    assert("sec"@ != "feet/minute"@);
    reveal_strlit("deg");
    assert("deg"@.len() == 3);
    assert("deg"@ != "feet/minute"@);
    reveal_strlit("deg.");
    assert("deg."@.len() == 4);
    assert("deg."@ != "feet/minute"@);
    reveal_strlit("deg/s");
    assert("deg/s"@.len() == 5);
    assert("deg/s"@ != "feet/minute"@);
    reveal_strlit("deg/sec");
    assert("deg/sec"@.len() == 7);
    assert("deg/sec"@ != "feet/minute"@);
    reveal_strlit("C");
    assert("C"@.len() == 1);
    assert("C"@ != "feet/minute"@);
    reveal_strlit("deg C");
    assert("deg C"@.len() == 5);
    assert("deg C"@ != "feet/minute"@);
    reveal_strlit("m/sec");
    assert("m/sec"@.len() == 5);
    assert("m/sec"@ != "feet/minute"@);
    reveal_strlit("m/s^2");
    assert("m/s^2"@.len() == 5);
    assert("m/s^2"@ != "feet/minute"@);
    reveal_strlit("m/s²");
    assert("m/s²"@.len() == 4);
    assert("m/s²"@ != "feet/minute"@);
    reveal_strlit("Nm");
    assert("Nm"@.len() == 2);
    assert("Nm"@ != "feet/minute"@);
    reveal_strlit("knot");
    assert("knot"@.len() == 4);
    assert("knot"@ != "feet/minute"@);
}

proof fn lemma_unit_row_45()
    ensures
        unit_of_name("mbar"@) == Some(Unit::Millibar),
{
    reveal_strlit("mbar");
    assert("mbar"@.len() == 4);
    reveal_strlit("");
    assert(""@.len() == 0);
    assert(""@ != "mbar"@);
    reveal_strlit("%");
    assert("%"@.len() == 1);
    assert("%"@ != "mbar"@);
    reveal_strlit("s");
    assert("s"@.len() == 1);
    assert("s"@ != "mbar"@);
    reveal_strlit("ms");
    assert("ms"@.len() == 2);
    assert("ms"@ != "mbar"@);
    reveal_strlit("ns");
    assert("ns"@.len() == 2);
    assert("ns"@ != "mbar"@);
    reveal_strlit("fs");
    assert("fs"@.len() == 2);
    assert("fs"@ != "mbar"@);
    reveal_strlit("°");
    assert("°"@.len() == 1);
    assert("°"@ != "mbar"@);
    reveal_strlit("°/s");
    assert("°/s"@.len() == 3);
    assert("°/s"@ != "mbar"@);
    reveal_strlit("°C");
    assert("°C"@.len() == 2);
    assert("°C"@ != "mbar"@);
    reveal_strlit("FL");
    assert("FL"@.len() == 2);
    assert("FL"@ != "mbar"@);
    reveal_strlit("MHz");
    assert("MHz"@.len() == 3);
    assert("MHz"@ != "mbar"@);
    reveal_strlit("m");
    assert("m"@.len() == 1);
    assert("m"@ != "mbar"@);
    reveal_strlit("km");
    assert("km"@.len() == 2);
    assert("km"@ != "mbar"@);
    reveal_strlit("m/s");
    assert("m/s"@.len() == 3);
    assert("m/s"@ != "mbar"@);
    reveal_strlit("m/s2");
    assert("m/s2"@[1] == '/' && "mbar"@[1] == 'b');
    assert("m/s2"@ != "mbar"@);
    reveal_strlit("Mach");
    assert("Mach"@[0] == 'M' && "mbar"@[0] == 'm');
    assert("Mach"@ != "mbar"@);
    reveal_strlit("NM");
    assert("NM"@.len() == 2);
    assert("NM"@ != "mbar"@);
    reveal_strlit("kt");
    assert("kt"@.len() == 2);
    assert("kt"@ != "mbar"@);
    reveal_strlit("NM/s");
    assert("NM/s"@[0] == 'N' && "mbar"@[0] == 'm');
    assert("NM/s"@ != "mbar"@);
    reveal_strlit("ft");
    assert("ft"@.len() == 2);
    assert("ft"@ != "mbar"@);
    reveal_strlit("ft/min");
    assert("ft/min"@.len() == 6);
    assert("ft/min"@ != "mbar"@);
    reveal_strlit("hPa");
    assert("hPa"@.len() == 3);
    assert("hPa"@ != "mbar"@);
    reveal_strlit("mb");
    assert("mb"@.len() == 2);
    assert("mb"@ != "mbar"@);
    reveal_strlit("dB");
    assert("dB"@.len() == 2);
    assert("dB"@ != "mbar"@);
    reveal_strlit("dBm");
    assert("dBm"@.len() == 3);
    assert("dBm"@ != "mbar"@);
    reveal_strlit("*2^(-6+f)");
    assert("*2^(-6+f)"@.len() == 9);
    assert("*2^(-6+f)"@ != "mbar"@);
    reveal_strlit("* 2^(-6+f)");
    assert("* 2^(-6+f)"@.len() == 10);
    assert("* 2^(-6+f)"@ != "mbar"@);
    reveal_strlit("* 2^(-7+f)");
    assert("* 2^(-7+f)"@.len() == 10);
    assert("* 2^(-7+f)"@ != "mbar"@);
    reveal_strlit("*10E-5");
    assert("*10E-5"@.len() == 6);
    assert("*10E-5"@ != "mbar"@);
    reveal_strlit("dBuV");
    assert("dBuV"@[0] == 'd' && "mbar"@[0] == 'm');
    assert("dBuV"@ != "mbar"@);
    reveal_strlit("min");
    assert("min"@.len() == 3);
    assert("min"@ != "mbar"@);
    reveal_strlit("KBytes/s");
    assert("KBytes/s"@.len() == 8);
    assert("KBytes/s"@ != "mbar"@);
    reveal_strlit("sec");
    assert("sec"@.len() == 3);
    assert("sec"@ != "mbar"@);
    reveal_strlit("deg");
    assert("deg"@.len() == 3);
    assert("deg"@ != "mbar"@);
    reveal_strlit("deg.");
    assert("deg."@[0] == 'd' && "mbar"@[0] == 'm');
    assert("deg."@ != "mbar"@);
    reveal_strlit("deg/s");
    assert("deg/s"@.len() == 5);
    assert("deg/s"@ != "mbar"@);
    reveal_strlit("deg/sec");
    assert("deg/sec"@.len() == 7);
    assert("deg/sec"@ != "mbar"@);
    reveal_strlit("C");
    assert("C"@.len() == 1);
    assert("C"@ != "mbar"@);
    reveal_strlit("deg C");
    assert("deg C"@.len() == 5);
    assert("deg C"@ != "mbar"@);
    reveal_strlit("m/sec");
    assert("m/sec"@.len() == 5);
    assert("m/sec"@ != "mbar"@);
    reveal_strlit("m/s^2");
    assert("m/s^2"@.len() == 5);
    assert("m/s^2"@ != "mbar"@);
    reveal_strlit("m/s²");
    assert("m/s²"@[1] == '/' && "mbar"@[1] == 'b');
    assert("m/s²"@ != "mbar"@);
    reveal_strlit("Nm");
    assert("Nm"@.len() == 2);
    assert("Nm"@ != "mbar"@);
    reveal_strlit("knot");
    assert("knot"@[0] == 'k' && "mbar"@[0] == 'm');
    assert("knot"@ != "mbar"@);
    reveal_strlit("feet/minute");
    assert("feet/minute"@.len() == 11);
    assert("feet/minute"@ != "mbar"@);
}

/// Every name in the table of unit names parses to its unit, and no other
/// name parses at all: `parse_str` gives exactly the unit the table gives
/// for the text before a note, and an error for a text not in the table.
pub proof fn lemma_unit_table(s: Seq<char>)
    ensures
        forall|i: int| 0 <= i < unit_table().len() ==> unit_of_name(#[trigger] unit_table()[i].0) == Some(unit_table()[i].1),
        unit_of_name(s) matches Some(u) ==> exists|i: int| 0 <= i < unit_table().len() && #[trigger] unit_table()[i] == (s, u),
{
    let t = unit_table();
    assert forall|i: int| 0 <= i < t.len() implies unit_of_name(#[trigger] t[i].0) == Some(t[i].1) by {
        if i == 0 {
            lemma_unit_row_0();
        } else if i == 1 {
            lemma_unit_row_1();
        } else if i == 2 {
            lemma_unit_row_2();
        } else if i == 3 {
            lemma_unit_row_3();
        } else if i == 4 {
            lemma_unit_row_4();
        } else if i == 5 {
            lemma_unit_row_5();
        } else if i == 6 {
            lemma_unit_row_6();
        } else if i == 7 {
            lemma_unit_row_7();
        } else if i == 8 {
            lemma_unit_row_8();
        } else if i == 9 {
            lemma_unit_row_9();
        } else if i == 10 {
            lemma_unit_row_10();
        } else if i == 11 {
            lemma_unit_row_11();
        } else if i == 12 {
            lemma_unit_row_12();
        } else if i == 13 {
            lemma_unit_row_13();
        } else if i == 14 {
            lemma_unit_row_14();
        } else if i == 15 {
            lemma_unit_row_15();
        } else if i == 16 {
            lemma_unit_row_16();
        } else if i == 17 {
            lemma_unit_row_17();
        } else if i == 18 {
            lemma_unit_row_18();
        } else if i == 19 {
            lemma_unit_row_19();
        } else if i == 20 {
            lemma_unit_row_20();
        } else if i == 21 {
            lemma_unit_row_21();
        } else if i == 22 {
            lemma_unit_row_22();
        } else if i == 23 {
            lemma_unit_row_23();
        } else if i == 24 {
            lemma_unit_row_24();
        } else if i == 25 {
            lemma_unit_row_25();
        } else if i == 26 {
            lemma_unit_row_26();
        } else if i == 27 {
            lemma_unit_row_27();
        } else if i == 28 {
            lemma_unit_row_28();
        } else if i == 29 {
            lemma_unit_row_29();
        } else if i == 30 {
            lemma_unit_row_30();
        } else if i == 31 {
            lemma_unit_row_31();
        } else if i == 32 {
            lemma_unit_row_32();
        } else if i == 33 {
            lemma_unit_row_33();
        } else if i == 34 {
            lemma_unit_row_34();
        } else if i == 35 {
            lemma_unit_row_35();
        } else if i == 36 {
            lemma_unit_row_36();
        } else if i == 37 {
            lemma_unit_row_37();
        } else if i == 38 {
            lemma_unit_row_38();
        } else if i == 39 {
            lemma_unit_row_39();
        } else if i == 40 {
            lemma_unit_row_40();
        } else if i == 41 {
            lemma_unit_row_41();
        } else if i == 42 {
            lemma_unit_row_42();
        } else if i == 43 {
            lemma_unit_row_43();
        } else if i == 44 {
            lemma_unit_row_44();
        } else if i == 45 {
            lemma_unit_row_45();
        }
    }
    if s == ""@ {
        assert(t[0] == (s, Unit::Unitless));
    } else if s == "%"@ {
        assert(t[1] == (s, Unit::Percent));
    } else if s == "s"@ {
        assert(t[2] == (s, Unit::Second));
    } else if s == "ms"@ {
        assert(t[3] == (s, Unit::Millisecond));
    } else if s == "ns"@ {
        assert(t[4] == (s, Unit::NanoSecond));
    } else if s == "fs"@ {
        assert(t[5] == (s, Unit::FemtoSecond));
    } else if s == "°"@ {
        assert(t[6] == (s, Unit::Degree));
    } else if s == "°/s"@ {
        assert(t[7] == (s, Unit::DegreePerSecond));
    } else if s == "°C"@ {
        assert(t[8] == (s, Unit::Celsius));
    } else if s == "FL"@ {
        assert(t[9] == (s, Unit::FlightLevel));
    } else if s == "MHz"@ {
        assert(t[10] == (s, Unit::MHz));
    } else if s == "m"@ {
        assert(t[11] == (s, Unit::Meter));
    } else if s == "km"@ {
        assert(t[12] == (s, Unit::KiloMeter));
    } else if s == "m/s"@ {
        assert(t[13] == (s, Unit::MeterPerSecond));
    } else if s == "m/s2"@ {
        assert(t[14] == (s, Unit::MeterPerSecondSq));
    } else if s == "Mach"@ {
        assert(t[15] == (s, Unit::Mach));
    } else if s == "NM"@ {
        assert(t[16] == (s, Unit::NauticalMile));
    } else if s == "kt"@ {
        assert(t[17] == (s, Unit::Knot));
    } else if s == "NM/s"@ {
        assert(t[18] == (s, Unit::NauticalMilePerSecond));
    } else if s == "ft"@ {
        assert(t[19] == (s, Unit::Feet));
    } else if s == "ft/min"@ {
        assert(t[20] == (s, Unit::FeetPerMinute));
    } else if s == "hPa"@ {
        assert(t[21] == (s, Unit::HectoPascal));
    } else if s == "mb"@ {
        assert(t[22] == (s, Unit::Millibar));
    } else if s == "dB"@ {
        assert(t[23] == (s, Unit::dB));
    } else if s == "dBm"@ {
        assert(t[24] == (s, Unit::dBm));
    } else if s == "*2^(-6+f)"@ {
        assert(t[25] == (s, Unit::NauticalMile));
    } else if s == "* 2^(-6+f)"@ {
        assert(t[26] == (s, Unit::NauticalMile));
    } else if s == "* 2^(-7+f)"@ {
        assert(t[27] == (s, Unit::NauticalMile));
    } else if s == "*10E-5"@ {
        assert(t[28] == (s, Unit::Unitless));
    } else if s == "dBuV"@ {
        assert(t[29] == (s, Unit::dBuV));
    } else if s == "min"@ {
        assert(t[30] == (s, Unit::Minute));
    } else if s == "KBytes/s"@ {
        assert(t[31] == (s, Unit::KBytesPerSecond));
    } else if s == "sec"@ {
        assert(t[32] == (s, Unit::Second));
    } else if s == "deg"@ {
        assert(t[33] == (s, Unit::Degree));
    } else if s == "deg."@ {
        assert(t[34] == (s, Unit::Degree));
    } else if s == "deg/s"@ {
        assert(t[35] == (s, Unit::DegreePerSecond));
    } else if s == "deg/sec"@ {
        assert(t[36] == (s, Unit::DegreePerSecond));
    } else if s == "C"@ {
        assert(t[37] == (s, Unit::Celsius));
    } else if s == "deg C"@ {
        assert(t[38] == (s, Unit::Celsius));
    } else if s == "m/sec"@ {
        assert(t[39] == (s, Unit::MeterPerSecond));
    } else if s == "m/s^2"@ {
        assert(t[40] == (s, Unit::MeterPerSecondSq));
    } else if s == "m/s²"@ {
        assert(t[41] == (s, Unit::MeterPerSecondSq));
    } else if s == "Nm"@ {
        assert(t[42] == (s, Unit::NauticalMile));
    } else if s == "knot"@ {
        assert(t[43] == (s, Unit::Knot));
    } else if s == "feet/minute"@ {
        assert(t[44] == (s, Unit::FeetPerMinute));
    } else if s == "mbar"@ {
        assert(t[45] == (s, Unit::Millibar));
    }
}

} // verus!
