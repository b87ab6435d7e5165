//! Severity levels of log records.

use vstd::prelude::*;

verus! {

#[derive(Debug, Clone, Copy, Eq, PartialEq, Hash, Structural)]
pub enum LogLevel {
    EMERG,
    ALERT,
    CRIT,
    ERROR,
    WARN,
    NOTICE,
    INFO,
    DEBUG,
}

impl LogLevel {
    /// The level's display label.
    pub fn label(&self) -> (r: &'static str)
        ensures
            self == LogLevel::EMERG ==> r@ == "EMERG"@,
            self == LogLevel::ALERT ==> r@ == "ALERT"@,
            self == LogLevel::CRIT ==> r@ == "CRIT"@,
            self == LogLevel::ERROR ==> r@ == "ERROR"@,
            self == LogLevel::WARN ==> r@ == "WARN"@,
            self == LogLevel::NOTICE ==> r@ == "NOTICE"@,
            self == LogLevel::INFO ==> r@ == "INFO"@,
            self == LogLevel::DEBUG ==> r@ == "DEBUG"@,
    {
        match self {
            LogLevel::EMERG => "EMERG",
            LogLevel::ALERT => "ALERT",
            LogLevel::CRIT => "CRIT",
            LogLevel::ERROR => "ERROR",
            LogLevel::WARN => "WARN",
            LogLevel::NOTICE => "NOTICE",
            LogLevel::INFO => "INFO",
            LogLevel::DEBUG => "DEBUG",
        }
    }
}

} // verus!
