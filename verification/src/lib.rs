//! Round-trip-time estimation for a QUIC transport: a windowed-minimum
//! tracker over duration samples and the RFC 9002-style RTT estimator that
//! feeds loss detection and congestion control. All durations and timestamps
//! are integer nanoseconds.

pub mod minmax;
pub mod rtt;
