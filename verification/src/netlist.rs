//! Netlist-facing classifiers and topology records: element markers,
//! junction/channel kinds, connection descriptors and the per-node
//! connection record.  Name matching is ASCII-case-insensitive, exactly as
//! the contracts state it over the lowercased character sequence.

use vstd::prelude::*;

use crate::text::{lower_seq, str_eq_lower};

verus! {

/// The circuit element a netlist line introduces.
#[derive(Clone, Copy, Debug, PartialEq, Eq, Structural)]
pub enum ElementMarker {
    /// An AC sweep source.
    ACSweep,
    /// A DC source.
    DCSource,
    /// A resistor.
    Resistor,
    /// A capacitor.
    Capacitor,
    /// An inductor.
    Inductor,
    /// A transistor.
    Transistor,
    /// A diode.
    Diode,
}

impl ElementMarker {
    /// Classify an element keyword (case-insensitively); `None` for an
    /// unknown keyword.  The line number only names the place for the
    /// caller's report.
    pub fn from(s: &str, line_num: usize) -> (r: Option<ElementMarker>)
        ensures
            r == (if lower_seq(s@) == ".acsweep"@ {
                Some(ElementMarker::ACSweep)
            } else if lower_seq(s@) == ".dcsource"@ {
                Some(ElementMarker::DCSource)
            } else if lower_seq(s@) == ".resistor"@ {
                Some(ElementMarker::Resistor)
            } else if lower_seq(s@) == ".capacitor"@ {
                Some(ElementMarker::Capacitor)
            } else if lower_seq(s@) == ".inductor"@ {
                Some(ElementMarker::Inductor)
            } else if lower_seq(s@) == ".transistor"@ {
                Some(ElementMarker::Transistor)
            } else if lower_seq(s@) == ".diode"@ {
                Some(ElementMarker::Diode)
            } else {
                None
            }),
    {
        let _ = line_num;
        if str_eq_lower(s, ".acsweep") {
            Some(ElementMarker::ACSweep)
        } else if str_eq_lower(s, ".dcsource") {
            Some(ElementMarker::DCSource)
        } else if str_eq_lower(s, ".resistor") {
            Some(ElementMarker::Resistor)
        } else if str_eq_lower(s, ".capacitor") {
            Some(ElementMarker::Capacitor)
        } else if str_eq_lower(s, ".inductor") {
            Some(ElementMarker::Inductor)
        } else if str_eq_lower(s, ".transistor") {
            Some(ElementMarker::Transistor)
        } else if str_eq_lower(s, ".diode") {
            Some(ElementMarker::Diode)
        } else {
            None
        }
    }
}

/// Transistor junction or channel kind (diodes use the two-letter kinds).
#[derive(Clone, Copy, Debug, PartialEq, Eq, Structural)]
pub enum JunctionChannel {
    /// NPN bipolar junction.
    NPN,
    /// PNP bipolar junction.
    PNP,
    /// NP diode junction.
    NP,
    /// PN diode junction.
    PN,
    /// N channel.
    N,
    /// P channel.
    P,
}

impl JunctionChannel {
    /// Classify a junction/channel keyword (case-insensitively); `None`
    /// for an unknown keyword.
    pub fn from(s: &str, line_number: usize) -> (r: Option<JunctionChannel>)
        ensures
            r == (if lower_seq(s@) == "npn"@ {
                Some(JunctionChannel::NPN)
            } else if lower_seq(s@) == "pnp"@ {
                Some(JunctionChannel::PNP)
            } else if lower_seq(s@) == "np"@ {
                Some(JunctionChannel::NP)
            } else if lower_seq(s@) == "pn"@ {
                Some(JunctionChannel::PN)
            } else if lower_seq(s@) == "n"@ {
                Some(JunctionChannel::N)
            } else if lower_seq(s@) == "p"@ {
                Some(JunctionChannel::P)
            } else {
                None
            }),
    {
        let _ = line_number;
        if str_eq_lower(s, "npn") {
            Some(JunctionChannel::NPN)
        } else if str_eq_lower(s, "pnp") {
            Some(JunctionChannel::PNP)
        } else if str_eq_lower(s, "np") {
            Some(JunctionChannel::NP)
        } else if str_eq_lower(s, "pn") {
            Some(JunctionChannel::PN)
        } else if str_eq_lower(s, "n") {
            Some(JunctionChannel::N)
        } else if str_eq_lower(s, "p") {
            Some(JunctionChannel::P)
        } else {
            None
        }
    }
}

/// BJT or MOSFET, as the junction/channel kind decides.
#[derive(Clone, Copy, Debug, PartialEq, Eq, Structural)]
pub enum TransistorType {
    /// Bipolar junction transistor.
    BJT,
    /// Field-effect transistor.
    MOSFET,
}

/// A named node profile, or the default one.
#[derive(Clone, Debug)]
pub enum Profile {
    /// A profile under its own name.
    Named(String),
    /// The default profile.
    Default,
}

/// How a terminal is wired: serially or in parallel to a named node, to
/// ground, or to the neighboring line.
#[derive(Clone, Debug)]
pub enum Connection {
    /// Serial connection to a named node.
    Serial(String),
    /// Parallel connection to a named node.
    Parallel(String),
    /// Connection to ground.
    Ground,
    /// Connection to the next line's node.
    Next,
    /// Connection to the previous line's node.
    Prev,
}

impl Connection {
    /// Classify a connection keyword (case-insensitively); any other word
    /// names a node, serial or parallel as the flag says.
    pub fn from(s: &str, serial: bool) -> (r: Connection)
        ensures
            lower_seq(s@) == "prev"@ || lower_seq(s@) == "previous"@ ==> r == Connection::Prev,
            (match r {
                Connection::Prev => lower_seq(s@) == "prev"@ || lower_seq(s@) == "previous"@,
                Connection::Next => lower_seq(s@) == "next"@,
                Connection::Ground => lower_seq(s@) == "grnd"@ || lower_seq(s@) == "ground"@,
                Connection::Serial(name) => serial && name@ == s@,
                Connection::Parallel(name) => !serial && name@ == s@,
            }),
    {
        if str_eq_lower(s, "prev") || str_eq_lower(s, "previous") {
            Connection::Prev
        } else if str_eq_lower(s, "next") {
            Connection::Next
        } else if str_eq_lower(s, "grnd") || str_eq_lower(s, "ground") {
            Connection::Ground
        } else if serial {
            Connection::Serial(s.to_owned())
        } else {
            Connection::Parallel(s.to_owned())
        }
    }
}

/// One endpoint of a node's wiring, as the parser fills it in.
#[derive(Clone, Debug)]
pub enum ConnectionType {
    /// A named node.
    Named(String),
    /// The probe point.
    Probe,
    /// Ground.
    Ground,
    /// The next line's node.
    Next,
    /// The previous line's node.
    Previous,
    /// Not yet filled in.
    Init,
}

/// The wiring record of one circuit node: serial in/out (and base, for
/// three-terminal elements) plus any parallel connections.
#[derive(Clone, Debug)]
pub struct ElectoCircuitConnection {
    /// Serial input connection.
    pub serial_in: ConnectionType,
    /// Serial output connection.
    pub serial_out: ConnectionType,
    /// Serial base connection, for three-terminal elements.
    pub serial_base: Option<ConnectionType>,
    /// Parallel connections.
    pub parallel: Vec<ConnectionType>,
}

impl ElectoCircuitConnection {
    /// A fresh record: both serial ends unfilled, no base, no parallels.
    pub fn init() -> (r: ElectoCircuitConnection)
        ensures
            r.serial_in is Init,
            r.serial_out is Init,
            r.serial_base is None,
            r.parallel@.len() == 0,
    {
        ElectoCircuitConnection {
            serial_in: ConnectionType::Init,
            serial_out: ConnectionType::Init,
            serial_base: None,
            parallel: Vec::new(),
        }
    }

    /// Replace the serial input.
    pub fn modify_serial_in(&mut self, serial: ConnectionType)
        ensures
            final(self).serial_in == serial,
            final(self).serial_out == old(self).serial_out,
            final(self).serial_base == old(self).serial_base,
            final(self).parallel@ == old(self).parallel@,
    {
        self.serial_in = serial;
    }

    /// Replace the serial output.
    pub fn modify_serial_out(&mut self, serial: ConnectionType)
        ensures
            final(self).serial_out == serial,
            final(self).serial_in == old(self).serial_in,
            final(self).serial_base == old(self).serial_base,
            final(self).parallel@ == old(self).parallel@,
    {
        self.serial_out = serial;
    }

    /// Set the serial base.
    pub fn modify_serial_base(&mut self, serial: ConnectionType)
        ensures
            final(self).serial_base == Some(serial),
            final(self).serial_in == old(self).serial_in,
            final(self).serial_out == old(self).serial_out,
            final(self).parallel@ == old(self).parallel@,
    {
        self.serial_base = Some(serial);
    }

    /// Append a parallel connection.
    pub fn add_parallel(&mut self, parallel: ConnectionType)
        ensures
            final(self).parallel@ == old(self).parallel@.push(parallel),
            final(self).serial_in == old(self).serial_in,
            final(self).serial_out == old(self).serial_out,
            final(self).serial_base == old(self).serial_base,
    {
        self.parallel.push(parallel);
    }
}

} // verus!
