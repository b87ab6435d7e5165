//! The default logger provider: routes records into the buffer while
//! buffering is attached, otherwise hands them back for the host to emit
//! through the registered logger instance.

use vstd::prelude::*;

use crate::buffer::{LogBufferRecord, LoggerBuffer};
use crate::cast::Handle;
use crate::interface::ILogger;
use crate::level::LogLevel;

verus! {

/// The logger provider: owns the buffer and a current context label.
pub struct Logger {
    buffer: LoggerBuffer,
    context: String,
}

impl Logger {
    pub closed spec fn spec_buffer(self) -> LoggerBuffer {
        self.buffer
    }

    pub closed spec fn spec_context(self) -> Seq<char> {
        self.context@
    }

    pub fn new(buffer: LoggerBuffer) -> (l: Logger)
        ensures
            l.spec_buffer() == buffer,
            l.spec_context() == "ConsoleLogger"@,
    {
        Logger { buffer, context: "ConsoleLogger".to_owned() }
    }

    /// Install (or swap) the logger instance records are emitted through.
    pub fn register_logger(&mut self, instance: Handle)
        ensures
            final(self).spec_buffer().spec_instance().is_initialized(),
            final(self).spec_buffer().spec_instance().spec_handle() == instance,
            final(self).spec_buffer().logs_seq() == old(self).spec_buffer().logs_seq(),
            final(self).spec_context() == old(self).spec_context(),
    {
        self.buffer.register_logger(instance);
    }

    pub fn attach_buffer(&mut self)
        ensures
            final(self).spec_buffer().spec_attached(),
            final(self).spec_buffer().logs_seq() == old(self).spec_buffer().logs_seq(),
            final(self).spec_context() == old(self).spec_context(),
    {
        self.buffer.attach_buffer();
    }

    pub fn detach_buffer(&mut self)
        ensures
            !final(self).spec_buffer().spec_attached(),
            final(self).spec_buffer().logs_seq() == old(self).spec_buffer().logs_seq(),
            final(self).spec_context() == old(self).spec_context(),
    {
        self.buffer.detach_buffer();
    }

    pub fn get_buffer(&self) -> (r: &LoggerBuffer)
        ensures
            *r == self.spec_buffer(),
    {
        &self.buffer
    }

    /// Detach buffering and drain the buffered records, in order, for the
    /// host to emit through the registered logger.
    pub fn flush(&mut self) -> (r: Vec<LogBufferRecord>)
        ensures
            r@ == old(self).spec_buffer().logs_seq(),
            !final(self).spec_buffer().spec_attached(),
            final(self).spec_buffer().logs_seq().len() == 0,
            final(self).spec_context() == old(self).spec_context(),
    {
        self.buffer.detach_buffer();
        self.buffer.take_logs()
    }
}

impl ILogger for Logger {
    fn set_context(&mut self, ctx: &str) {
        self.context = ctx.to_owned();
    }

    fn get_context(&self) -> String {
        self.context.clone()
    }

    /// Buffer the record while attached; otherwise hand it back for the
    /// host to emit.
    fn log(&mut self, level: LogLevel, msg: &str) -> Option<LogBufferRecord> {
        if self.buffer.is_attached() {
            let ctx = self.context.clone();
            self.buffer.write_log(level, msg, ctx.as_str());
            None
        } else {
            let ctx = self.context.clone();
            Some(LogBufferRecord::new(level, msg, ctx.as_str()))
        }
    }

    fn log_with_ctx(&mut self, level: LogLevel, msg: &str, ctx: &str) -> Option<LogBufferRecord> {
        if self.buffer.is_attached() {
            self.buffer.write_log(level, msg, ctx);
            None
        } else {
            Some(LogBufferRecord::new(level, msg, ctx))
        }
    }
}

} // verus!
