//! The record of one workout route.

use vstd::prelude::*;
use crate::error::RunError;
use crate::instant::{instant_of, read_instant, Instant};

verus! {

/// One sensor reading, kept as the bit pattern of an IEEE 754 double.
///
/// The library carries readings from where they are parsed to where they are
/// summed and never computes with them, so a reading is equal to another
/// exactly when the two have the same bits.
#[derive(Clone, Copy, Debug, PartialEq, Eq, Structural)]
pub struct Reading {
    pub bits: u64,
}

/// One timestamped sample of position and motion.
#[derive(Clone, Debug, PartialEq, Eq)]
pub struct TrackPoint {
    /// Longitude, in degrees.
    pub lon: Reading,
    /// Latitude, in degrees.
    pub lat: Reading,
    /// Elevation, in metres.
    pub ele: Reading,
    /// When the sample was taken, as the text of the file.
    pub time: String,
    /// Ground speed, in metres per second.
    pub speed: Reading,
    /// Heading, in degrees.
    pub course: Reading,
    /// Horizontal accuracy, in metres.
    pub h_acc: Reading,
    /// Vertical accuracy, in metres.
    pub v_acc: Reading,
}

/// One recorded workout: a name and the samples in the order of recording.
#[derive(Clone, Debug, PartialEq, Eq)]
pub struct Track {
    pub name: String,
    /// The timestamp of the recording session. It may differ from the first
    /// point's and plays no part in the order of a report.
    pub start_time: String,
    pub points: Vec<TrackPoint>,
}

impl Track {
    /// When the track starts: the instant of its first point.
    ///
    /// A track without points has no start (`RunError::EmptyTrack`), and a
    /// first point whose timestamp is not an RFC 3339 date and time gives none
    /// either (`RunError::TimestampFormat`).
    pub open spec fn start(self) -> Result<Instant, RunError> {
        if self.points@.len() == 0 {
            Err(RunError::EmptyTrack)
        } else {
            match instant_of(self.points@[0].time@) {
                Some(at) => Ok(at),
                None => Err(RunError::TimestampFormat),
            }
        }
    }

    /// The number of points of the track.
    pub fn point_count(&self) -> (n: usize)
        ensures
            n == self.points@.len(),
    {
        self.points.len()
    }

    /// Computes when the track starts, from its first point's timestamp.
    pub fn start_instant(&self) -> (r: Result<Instant, RunError>)
        ensures
            r == self.start(),
    {
        if self.points.len() == 0 {
            Err(RunError::EmptyTrack)
        } else {
            read_instant(self.points[0].time.as_str())
        }
    }
}

} // verus!
