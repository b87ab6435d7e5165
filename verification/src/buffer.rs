//! The log buffer: records written before a logger is installed, plus
//! the handle of the currently registered logger instance.

use vstd::prelude::*;

use crate::cast::Handle;
use crate::level::LogLevel;
use crate::reference::Ref;

verus! {

/// One buffered log record.
pub struct LogBufferRecord {
    pub level: LogLevel,
    pub msg: String,
    pub ctx: String,
}

impl LogBufferRecord {
    pub fn new(level: LogLevel, msg: &str, ctx: &str) -> (r: LogBufferRecord)
        ensures
            r.level == level,
            r.msg@ == msg@,
            r.ctx@ == ctx@,
    {
        LogBufferRecord { level, msg: msg.to_owned(), ctx: ctx.to_owned() }
    }
}

/// Owns the currently registered logger instance (a handle into the DI
/// graph) and the records buffered while buffering is attached.
pub struct LoggerBuffer {
    instance: Ref,
    log_buffer: Vec<LogBufferRecord>,
    is_buffer_attached: bool,
}

impl LoggerBuffer {
    pub closed spec fn spec_instance(self) -> Ref {
        self.instance
    }

    pub closed spec fn logs_seq(self) -> Seq<LogBufferRecord> {
        self.log_buffer@
    }

    pub closed spec fn spec_attached(self) -> bool {
        self.is_buffer_attached
    }

    /// A fresh buffer: the host's default console logger is already
    /// installed (so logging before any registration reaches the
    /// console), nothing is buffered, buffering is detached.
    pub fn new() -> (b: LoggerBuffer)
        ensures
            b.spec_instance().is_initialized(),
            b.spec_instance().spec_handle() == (Handle {
                instance_id: crate::console_logger::CONSOLE_LOGGER_ID,
                concrete: crate::console_logger::CONSOLE_LOGGER_KEY,
                view: crate::console_logger::CONSOLE_LOGGER_KEY,
            }),
            b.logs_seq().len() == 0,
            !b.spec_attached(),
    {
        LoggerBuffer {
            instance: Ref::new(crate::console_logger::default_console_handle()),
            log_buffer: Vec::new(),
            is_buffer_attached: false,
        }
    }

    /// Install (or swap) the active logger instance.
    pub fn register_logger(&mut self, instance: Handle)
        ensures
            final(self).spec_instance().is_initialized(),
            final(self).spec_instance().spec_handle() == instance,
            final(self).logs_seq() == old(self).logs_seq(),
            final(self).spec_attached() == old(self).spec_attached(),
    {
        self.instance = Ref::new(instance);
    }

    pub fn attach_buffer(&mut self)
        ensures
            final(self).spec_attached(),
            final(self).logs_seq() == old(self).logs_seq(),
            final(self).spec_instance() == old(self).spec_instance(),
    {
        self.is_buffer_attached = true;
    }

    pub fn detach_buffer(&mut self)
        ensures
            !final(self).spec_attached(),
            final(self).logs_seq() == old(self).logs_seq(),
            final(self).spec_instance() == old(self).spec_instance(),
    {
        self.is_buffer_attached = false;
    }

    pub fn is_attached(&self) -> (r: bool)
        ensures
            r == self.spec_attached(),
    {
        self.is_buffer_attached
    }

    /// The registered logger instance, if one was installed.
    pub fn get_instance(&self) -> (r: Option<Handle>)
        ensures
            r is Some <==> self.spec_instance().is_initialized(),
            r is Some ==> r->0 == self.spec_instance().spec_handle(),
    {
        self.instance.as_ref()
    }

    pub fn get_logs(&self) -> (r: &Vec<LogBufferRecord>)
        ensures
            r@ == self.logs_seq(),
    {
        &self.log_buffer
    }

    /// Append one record to the buffer.
    pub fn write_log(&mut self, level: LogLevel, msg: &str, ctx: &str)
        ensures
            final(self).logs_seq().len() == old(self).logs_seq().len() + 1,
            final(self).logs_seq() == old(self).logs_seq().push(
                final(self).logs_seq().last(),
            ),
            final(self).logs_seq().last().level == level,
            final(self).logs_seq().last().msg@ == msg@,
            final(self).logs_seq().last().ctx@ == ctx@,
            final(self).spec_attached() == old(self).spec_attached(),
            final(self).spec_instance() == old(self).spec_instance(),
    {
        self.log_buffer.push(LogBufferRecord::new(level, msg, ctx));
    }

    /// Remove and return every buffered record, leaving the buffer empty.
    pub fn take_logs(&mut self) -> (r: Vec<LogBufferRecord>)
        ensures
            r@ == old(self).logs_seq(),
            final(self).logs_seq().len() == 0,
            final(self).spec_attached() == old(self).spec_attached(),
            final(self).spec_instance() == old(self).spec_instance(),
    {
        let mut out: Vec<LogBufferRecord> = Vec::new();
        core::mem::swap(&mut self.log_buffer, &mut out);
        out
    }

    pub fn clear_logs(&mut self)
        ensures
            final(self).logs_seq().len() == 0,
            final(self).spec_attached() == old(self).spec_attached(),
            final(self).spec_instance() == old(self).spec_instance(),
    {
        self.log_buffer.clear();
    }
}

} // verus!
