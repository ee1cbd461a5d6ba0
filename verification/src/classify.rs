//! The anomaly classifier: pure threshold rules comparing a current sample
//! against its own window average, and the alert messages they produce.

use vstd::prelude::*;

use crate::text::{centi_text, dec_digits, push_centi, push_decimal};

verus! {

/// Detection thresholds and floors, as plain integers: the multipliers in
/// thousandths (1200 is a 1.2x threshold), the CPU floor in hundredths of
/// a percent, the memory floor in bytes.
pub struct AlertConfig {
    pub cpu_threshold_milli: u64,
    pub mem_threshold_milli: u64,
    pub min_cpu_centi: u64,
    pub min_mem_bytes: u64,
}

/// The CPU rule: current usage exceeds the absolute floor and exceeds the
/// window average scaled by the threshold multiplier.
pub open spec fn cpu_anomaly(current: u64, average: int, cfg: AlertConfig) -> bool {
    current > cfg.min_cpu_centi && current * 1000 > average * cfg.cpu_threshold_milli
}

/// The memory rule, symmetric to the CPU rule, over byte counts.
pub open spec fn mem_anomaly(current: u64, average: int, cfg: AlertConfig) -> bool {
    current > cfg.min_mem_bytes && current * 1000 > average * cfg.mem_threshold_milli
}

pub fn is_cpu_anomaly(current: u64, average: u64, cfg: &AlertConfig) -> (r: bool)
    ensures
        r == cpu_anomaly(current, average as int, *cfg),
{
    proof {
        assert((average as int) * (cfg.cpu_threshold_milli as int) <= (u64::MAX as int) * (
        u64::MAX as int)) by (nonlinear_arith)
            requires
                average <= u64::MAX && cfg.cpu_threshold_milli <= u64::MAX,
        ;
    }
    current > cfg.min_cpu_centi && (current as u128) * 1000 > (average as u128) * (
    cfg.cpu_threshold_milli as u128)
}

pub fn is_mem_anomaly(current: u64, average: u64, cfg: &AlertConfig) -> (r: bool)
    ensures
        r == mem_anomaly(current, average as int, *cfg),
{
    proof {
        assert((average as int) * (cfg.mem_threshold_milli as int) <= (u64::MAX as int) * (
        u64::MAX as int)) by (nonlinear_arith)
            requires
                average <= u64::MAX && cfg.mem_threshold_milli <= u64::MAX,
        ;
    }
    current > cfg.min_mem_bytes && (current as u128) * 1000 > (average as u128) * (
    cfg.mem_threshold_milli as u128)
}

/// What a humansize-formatted byte count reads as, e.g. "512.00 MiB".
pub uninterp spec fn binary_size_text(bytes: u64) -> Seq<char>;

/// Relies on humansize::format_size with its BINARY options: the returned
/// text is a function of the byte count alone.
#[verifier::external_body]
fn format_binary_size(bytes: u64) -> (r: String)
    ensures
        r@ == binary_size_text(bytes),
{
    humansize::format_size(bytes, humansize::BINARY)
}

/// The message reported for a CPU spike.
pub open spec fn cpu_alert_text(name: Seq<char>, pid: u64, current: u64) -> Seq<char> {
    "High CPU usage for "@ + name + " ("@ + dec_digits(pid as nat) + "): "@ + centi_text(current)
        + "%"@
}

/// The message reported for a memory spike.
pub open spec fn mem_alert_text(name: Seq<char>, pid: u64, current: u64) -> Seq<char> {
    "High Memory usage for "@ + name + " ("@ + dec_digits(pid as nat) + "): "@ + binary_size_text(
        current,
    )
}

pub fn cpu_alert_message(name: &str, pid: u64, current: u64) -> (r: String)
    ensures
        r@ == cpu_alert_text(name@, pid, current),
{
    let mut s = "High CPU usage for ".to_owned();
    s.append(name);
    s.append(" (");
    push_decimal(&mut s, pid);
    s.append("): ");
    push_centi(&mut s, current);
    s.append("%");
    proof {
        assert(s@ =~= cpu_alert_text(name@, pid, current));
    }
    s
}

pub fn mem_alert_message(name: &str, pid: u64, current: u64) -> (r: String)
    ensures
        r@ == mem_alert_text(name@, pid, current),
{
    let mut s = "High Memory usage for ".to_owned();
    s.append(name);
    s.append(" (");
    push_decimal(&mut s, pid);
    s.append("): ");
    let size = format_binary_size(current);
    s.append(size.as_str());
    proof {
        assert(s@ =~= mem_alert_text(name@, pid, current));
    }
    s
}

/// Evaluate both rules for one process against its freshly updated window
/// averages; each rule that fires yields its alert message, independently.
pub fn classify_sample(
    name: &str,
    pid: u64,
    current_cpu: u64,
    cpu_average: u64,
    current_mem: u64,
    mem_average: u64,
    cfg: &AlertConfig,
) -> (r: (Option<String>, Option<String>))
    ensures
        r.0 is Some <==> cpu_anomaly(current_cpu, cpu_average as int, *cfg),
        r.0 matches Some(m) ==> m@ == cpu_alert_text(name@, pid, current_cpu),
        r.1 is Some <==> mem_anomaly(current_mem, mem_average as int, *cfg),
        r.1 matches Some(m) ==> m@ == mem_alert_text(name@, pid, current_mem),
{
    let cpu = if is_cpu_anomaly(current_cpu, cpu_average, cfg) {
        Some(cpu_alert_message(name, pid, current_cpu))
    } else {
        None
    };
    let mem = if is_mem_anomaly(current_mem, mem_average, cfg) {
        Some(mem_alert_message(name, pid, current_mem))
    } else {
        None
    };
    (cpu, mem)
}

} // verus!
