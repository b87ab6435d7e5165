//! The logger subsystem: buffering, flushing, routing, levels.

use blackbox_di::buffer::{LogBufferRecord, LoggerBuffer};
use blackbox_di::cast::Handle;
use blackbox_di::console_logger::{ConsoleLogger, CONSOLE_LOGGER_KEY};
use blackbox_di::interface::ILogger;
use blackbox_di::level::LogLevel;
use blackbox_di::logger::Logger;

#[test]
fn buffer_starts_with_console_logger_and_detached() {
    let b = LoggerBuffer::new();
    assert!(!b.is_attached());
    // A fresh buffer already carries the default console logger.
    let instance = b.get_instance().unwrap();
    assert_eq!(instance.concrete, CONSOLE_LOGGER_KEY);
    assert_eq!(b.get_logs().len(), 0);
}

#[test]
fn buffer_attach_write_clear() {
    let mut b = LoggerBuffer::new();
    b.attach_buffer();
    assert!(b.is_attached());
    b.write_log(LogLevel::INFO, "hello", "Test");
    b.write_log(LogLevel::WARN, "careful", "Test");
    assert_eq!(b.get_logs().len(), 2);
    assert_eq!(b.get_logs()[0].msg, "hello".to_string());
    assert_eq!(b.get_logs()[1].ctx, "Test".to_string());
    b.clear_logs();
    assert_eq!(b.get_logs().len(), 0);
    b.detach_buffer();
    assert!(!b.is_attached());
}

#[test]
fn buffer_registers_logger_instance() {
    let mut b = LoggerBuffer::new();
    let h = Handle::new(5, 2);
    b.register_logger(h);
    assert_eq!(b.get_instance().unwrap(), h);
}

#[test]
fn logger_buffers_while_attached_and_emits_otherwise() {
    let mut buffer = LoggerBuffer::new();
    buffer.attach_buffer();
    let mut logger = Logger::new(buffer);
    // Attached: the record is swallowed into the buffer.
    assert!(logger.log(LogLevel::INFO, "queued").is_none());
    assert_eq!(logger.get_buffer().get_logs().len(), 1);
    // Flush detaches and hands back what was buffered.
    let drained = logger.flush();
    assert_eq!(drained.len(), 1);
    assert_eq!(drained[0].msg, "queued".to_string());
    assert_eq!(logger.get_buffer().get_logs().len(), 0);
    // Detached: the record is handed back for the host to emit.
    let rec = logger.log(LogLevel::ERROR, "boom").unwrap();
    assert!(matches!(rec.level, LogLevel::ERROR));
    assert_eq!(rec.msg, "boom".to_string());
    assert_eq!(rec.ctx, "ConsoleLogger".to_string());
}

#[test]
fn logger_context_is_mutable() {
    let mut logger = Logger::new(LoggerBuffer::new());
    assert_eq!(logger.get_context(), "ConsoleLogger".to_string());
    logger.set_context("Worker");
    assert_eq!(logger.get_context(), "Worker".to_string());
    let rec = logger.log(LogLevel::DEBUG, "dbg").unwrap();
    assert_eq!(rec.ctx, "Worker".to_string());
}

#[test]
fn logger_level_helpers_use_their_level() {
    let mut logger = Logger::new(LoggerBuffer::new());
    let rec = logger.info("i").unwrap();
    assert!(matches!(rec.level, LogLevel::INFO));
    let rec = logger.emerg("e").unwrap();
    assert!(matches!(rec.level, LogLevel::EMERG));
    let rec = logger.warn_with_ctx("w", "Ctx").unwrap();
    assert!(matches!(rec.level, LogLevel::WARN));
    assert_eq!(rec.ctx, "Ctx".to_string());
}

#[test]
fn console_logger_emits_every_record() {
    let mut console = ConsoleLogger::new("App".to_string());
    assert_eq!(console.get_app_name(), &"App".to_string());
    let rec = console.log(LogLevel::NOTICE, "up").unwrap();
    assert!(matches!(rec.level, LogLevel::NOTICE));
    assert_eq!(rec.ctx, "ConsoleLogger".to_string());
    console.set_context("Boot");
    assert_eq!(console.get_context(), "Boot".to_string());
    let rec = console.log(LogLevel::NOTICE, "up").unwrap();
    assert_eq!(rec.ctx, "Boot".to_string());
}

#[test]
fn level_labels() {
    assert_eq!(LogLevel::EMERG.label(), "EMERG");
    assert_eq!(LogLevel::ALERT.label(), "ALERT");
    assert_eq!(LogLevel::CRIT.label(), "CRIT");
    assert_eq!(LogLevel::ERROR.label(), "ERROR");
    assert_eq!(LogLevel::WARN.label(), "WARN");
    assert_eq!(LogLevel::NOTICE.label(), "NOTICE");
    assert_eq!(LogLevel::INFO.label(), "INFO");
    assert_eq!(LogLevel::DEBUG.label(), "DEBUG");
}

#[test]
fn record_new_copies_fields() {
    let r = LogBufferRecord::new(LogLevel::CRIT, "m", "c");
    assert!(matches!(r.level, LogLevel::CRIT));
    assert_eq!(r.msg, "m".to_string());
    assert_eq!(r.ctx, "c".to_string());
}
