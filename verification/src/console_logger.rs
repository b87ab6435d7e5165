//! The console logger provider: holds the application name and the
//! current context label and hands every record straight back for the
//! host to format and print.

use vstd::prelude::*;

use crate::buffer::LogBufferRecord;
use crate::cast::{Handle, TypeKey};
use crate::interface::ILogger;
use crate::level::LogLevel;

verus! {

/// Concrete type key of the console logger.
pub const CONSOLE_LOGGER_KEY: TypeKey = 3;

/// Reserved identity of the default console logger the host constructs
/// at startup; it stands outside the instance arena.
pub const CONSOLE_LOGGER_ID: u64 = 0;

/// The handle of the default console logger: installed in a fresh log
/// buffer, so logging before any registration reaches the console.
pub fn default_console_handle() -> (h: Handle)
    ensures
        h == (Handle {
            instance_id: CONSOLE_LOGGER_ID,
            concrete: CONSOLE_LOGGER_KEY,
            view: CONSOLE_LOGGER_KEY,
        }),
{
    Handle::new(CONSOLE_LOGGER_ID, CONSOLE_LOGGER_KEY)
}

pub struct ConsoleLogger {
    app_name: String,
    context: String,
}

impl ConsoleLogger {
    pub closed spec fn spec_app_name(self) -> Seq<char> {
        self.app_name@
    }

    pub closed spec fn spec_context(self) -> Seq<char> {
        self.context@
    }

    pub fn new(app_name: String) -> (l: ConsoleLogger)
        ensures
            l.spec_app_name() == app_name@,
            l.spec_context() == "ConsoleLogger"@,
    {
        ConsoleLogger { app_name, context: "ConsoleLogger".to_owned() }
    }

    pub fn get_app_name(&self) -> (r: &String)
        ensures
            r@ == self.spec_app_name(),
    {
        &self.app_name
    }
}

impl ILogger for ConsoleLogger {
    fn set_context(&mut self, ctx: &str) {
        self.context = ctx.to_owned();
    }

    fn get_context(&self) -> String {
        self.context.clone()
    }

    /// Every record is emitted; the host prints it.
    fn log(&mut self, level: LogLevel, msg: &str) -> Option<LogBufferRecord> {
        let ctx = self.context.clone();
        Some(LogBufferRecord::new(level, msg, ctx.as_str()))
    }

    fn log_with_ctx(&mut self, level: LogLevel, msg: &str, ctx: &str) -> Option<LogBufferRecord> {
        Some(LogBufferRecord::new(level, msg, ctx))
    }
}

} // verus!
