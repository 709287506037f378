//! Settings of the three modes of operation, as plain values.

use vstd::prelude::*;
use vstd::string::*;

verus! {

/// Where the converter's lock lives when the combined mode starts it.
pub open spec fn convert_lock_path() -> Seq<char> {
    "/var/lib/gnss2tec-logger/convert.lock"@
}

/// Where the logger's lock lives when the combined mode starts it.
pub open spec fn log_lock_path() -> Seq<char> {
    "/var/lib/gnss2tec-logger/ubx_log.lock"@
}

/// How a status sentence is reported: as received, as a summary, or both.
#[derive(Clone, Copy, Debug, PartialEq, Eq, Structural)]
pub enum NmeaLogFormat {
    Raw,
    Plain,
    Both,
}

/// Settings of the logging mode.
#[derive(Clone, Debug)]
pub struct LogArgs {
    pub serial_port: String,
    pub baud_rate: u32,
    pub read_timeout_ms: u64,
    pub read_buffer_bytes: usize,
    pub flush_interval_secs: u64,
    pub stats_interval_secs: u64,
    pub nmea_log_interval_secs: u64,
    pub nmea_log_format: NmeaLogFormat,
    pub command_gap_ms: u64,
    pub config_file: String,
    pub data_dir: String,
    pub lock_file: String,
}

/// Settings of the conversion mode.
#[derive(Clone, Debug)]
pub struct ConvertArgs {
    pub station: String,
    pub country: String,
    pub receiver_type: String,
    pub antenna_type: String,
    pub observer: String,
    pub shift_hours: u32,
    pub max_days_back: u32,
    pub data_dir: String,
    pub archive_dir: String,
    pub lock_file: String,
    pub ubx2rinex_path: String,
    pub skip_nav: bool,
    pub keep_ubx: bool,
}

/// Settings of the combined mode: logging, with each closed hour converted
/// in the background.
#[derive(Clone, Debug)]
pub struct RunArgs {
    pub serial_port: String,
    pub baud_rate: u32,
    pub read_timeout_ms: u64,
    pub read_buffer_bytes: usize,
    pub flush_interval_secs: u64,
    pub stats_interval_secs: u64,
    pub nmea_log_interval_secs: u64,
    pub nmea_log_format: NmeaLogFormat,
    pub command_gap_ms: u64,
    pub config_file: String,
    pub data_dir: String,
    pub station: String,
    pub country: String,
    pub receiver_type: String,
    pub antenna_type: String,
    pub observer: String,
    pub shift_hours: u32,
    pub max_days_back: u32,
    pub archive_dir: String,
    pub ubx2rinex_path: String,
    pub skip_nav: bool,
    pub keep_ubx: bool,
    pub convert_on_start: bool,
}

/// The mode to run, with its settings.
#[derive(Clone, Debug)]
pub enum AppCommand {
    /// Stream the receiver's bytes into hourly files.
    Log(LogArgs),
    /// Convert the files of recent hours and archive the products.
    Convert(ConvertArgs),
    /// Log continuously and convert each closed hour.
    Run(RunArgs),
}

/// A whole invocation.
#[derive(Clone, Debug)]
pub struct Cli {
    pub command: AppCommand,
}

impl RunArgs {
    /// The conversion settings of the combined mode: the shared fields as
    /// they are, and the converter's lock at its fixed place.
    pub fn to_convert_args(&self) -> (r: ConvertArgs)
        ensures
            r.station@ == self.station@,
            r.country@ == self.country@,
            r.receiver_type@ == self.receiver_type@,
            r.antenna_type@ == self.antenna_type@,
            r.observer@ == self.observer@,
            r.shift_hours == self.shift_hours,
            r.max_days_back == self.max_days_back,
            r.data_dir@ == self.data_dir@,
            r.archive_dir@ == self.archive_dir@,
            r.lock_file@ == convert_lock_path(),
            r.ubx2rinex_path@ == self.ubx2rinex_path@,
            r.skip_nav == self.skip_nav,
            r.keep_ubx == self.keep_ubx,
    {
        ConvertArgs {
            station: self.station.clone(),
            country: self.country.clone(),
            receiver_type: self.receiver_type.clone(),
            antenna_type: self.antenna_type.clone(),
            observer: self.observer.clone(),
            shift_hours: self.shift_hours,
            max_days_back: self.max_days_back,
            data_dir: self.data_dir.clone(),
            archive_dir: self.archive_dir.clone(),
            lock_file: String::from_str("/var/lib/gnss2tec-logger/convert.lock"),
            ubx2rinex_path: self.ubx2rinex_path.clone(),
            skip_nav: self.skip_nav,
            keep_ubx: self.keep_ubx,
        }
    }

    /// The logging settings of the combined mode: the shared fields as they
    /// are, and the logger's lock at its fixed place.
    pub fn to_log_args(&self) -> (r: LogArgs)
        ensures
            r.serial_port@ == self.serial_port@,
            r.baud_rate == self.baud_rate,
            r.read_timeout_ms == self.read_timeout_ms,
            r.read_buffer_bytes == self.read_buffer_bytes,
            r.flush_interval_secs == self.flush_interval_secs,
            r.stats_interval_secs == self.stats_interval_secs,
            r.nmea_log_interval_secs == self.nmea_log_interval_secs,
            r.nmea_log_format == self.nmea_log_format,
            r.command_gap_ms == self.command_gap_ms,
            r.config_file@ == self.config_file@,
            r.data_dir@ == self.data_dir@,
            r.lock_file@ == log_lock_path(),
    {
        LogArgs {
            serial_port: self.serial_port.clone(),
            baud_rate: self.baud_rate,
            read_timeout_ms: self.read_timeout_ms,
            read_buffer_bytes: self.read_buffer_bytes,
            flush_interval_secs: self.flush_interval_secs,
            stats_interval_secs: self.stats_interval_secs,
            nmea_log_interval_secs: self.nmea_log_interval_secs,
            nmea_log_format: self.nmea_log_format,
            command_gap_ms: self.command_gap_ms,
            config_file: self.config_file.clone(),
            data_dir: self.data_dir.clone(),
            lock_file: String::from_str("/var/lib/gnss2tec-logger/ubx_log.lock"),
        }
    }
}

} // verus!
