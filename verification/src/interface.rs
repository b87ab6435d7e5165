//! The logger interface. A logger decides what becomes of each record;
//! since the library performs no output itself, `log` hands back the
//! record the host should emit, or `None` when the logger swallowed or
//! buffered it.

use vstd::prelude::*;

use crate::buffer::LogBufferRecord;
use crate::level::LogLevel;

verus! {

pub trait ILogger {
    fn set_context(&mut self, ctx: &str);

    fn get_context(&self) -> String;

    fn log(&mut self, level: LogLevel, msg: &str) -> Option<LogBufferRecord>;

    fn log_with_ctx(&mut self, level: LogLevel, msg: &str, ctx: &str) -> Option<LogBufferRecord>;

    fn emerg(&mut self, msg: &str) -> Option<LogBufferRecord> {
        self.log(LogLevel::EMERG, msg)
    }

    fn alert(&mut self, msg: &str) -> Option<LogBufferRecord> {
        self.log(LogLevel::ALERT, msg)
    }

    fn crit(&mut self, msg: &str) -> Option<LogBufferRecord> {
        self.log(LogLevel::CRIT, msg)
    }

    fn error(&mut self, msg: &str) -> Option<LogBufferRecord> {
        self.log(LogLevel::ERROR, msg)
    }

    fn warn(&mut self, msg: &str) -> Option<LogBufferRecord> {
        self.log(LogLevel::WARN, msg)
    }

    fn notice(&mut self, msg: &str) -> Option<LogBufferRecord> {
        self.log(LogLevel::NOTICE, msg)
    }

    fn info(&mut self, msg: &str) -> Option<LogBufferRecord> {
        self.log(LogLevel::INFO, msg)
    }

    fn debug(&mut self, msg: &str) -> Option<LogBufferRecord> {
        self.log(LogLevel::DEBUG, msg)
    }

    fn emerg_with_ctx(&mut self, msg: &str, ctx: &str) -> Option<LogBufferRecord> {
        self.log_with_ctx(LogLevel::EMERG, msg, ctx)
    }

    fn alert_with_ctx(&mut self, msg: &str, ctx: &str) -> Option<LogBufferRecord> {
        self.log_with_ctx(LogLevel::ALERT, msg, ctx)
    }

    fn crit_with_ctx(&mut self, msg: &str, ctx: &str) -> Option<LogBufferRecord> {
        self.log_with_ctx(LogLevel::CRIT, msg, ctx)
    }

    fn error_with_ctx(&mut self, msg: &str, ctx: &str) -> Option<LogBufferRecord> {
        self.log_with_ctx(LogLevel::ERROR, msg, ctx)
    }

    fn warn_with_ctx(&mut self, msg: &str, ctx: &str) -> Option<LogBufferRecord> {
        self.log_with_ctx(LogLevel::WARN, msg, ctx)
    }

    fn notice_with_ctx(&mut self, msg: &str, ctx: &str) -> Option<LogBufferRecord> {
        self.log_with_ctx(LogLevel::NOTICE, msg, ctx)
    }

    fn info_with_ctx(&mut self, msg: &str, ctx: &str) -> Option<LogBufferRecord> {
        self.log_with_ctx(LogLevel::INFO, msg, ctx)
    }

    fn debug_with_ctx(&mut self, msg: &str, ctx: &str) -> Option<LogBufferRecord> {
        self.log_with_ctx(LogLevel::DEBUG, msg, ctx)
    }
}

} // verus!
