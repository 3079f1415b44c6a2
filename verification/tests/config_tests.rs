use makepad_analyzer::completion::{handle_completion, has_live_design_macro, keywords};
use makepad_analyzer::config::{Config, LSPClient, LevelFilter, LoggingConfig};
use makepad_analyzer::logging::{
    StdioTracingWriter, TracingSubscriberOptions, TracingWriterMode, WriterTarget,
};

#[test]
fn defaults_are_other_client_and_no_logging() {
    let config = Config::default();
    assert_eq!(config.client, LSPClient::Other);
    assert_eq!(config.logging, LoggingConfig { level: LevelFilter::Off });
    assert_eq!(LSPClient::default(), LSPClient::Other);
    assert_eq!(LoggingConfig::default().level, LevelFilter::Off);
    assert!(!LoggingConfig::default().enabled());
    assert!(LoggingConfig { level: LevelFilter::Error }.enabled());
}

#[test]
fn levels_are_ordered() {
    let levels = [
        LevelFilter::Off,
        LevelFilter::Error,
        LevelFilter::Warn,
        LevelFilter::Info,
        LevelFilter::Debug,
        LevelFilter::Trace,
    ];
    for (i, level) in levels.iter().enumerate() {
        assert_eq!(level.order() as usize, i);
    }
    assert!(LevelFilter::Info.allows(LevelFilter::Warn));
    assert!(LevelFilter::Info.allows(LevelFilter::Info));
    assert!(!LevelFilter::Info.allows(LevelFilter::Debug));
    assert!(!LevelFilter::Off.allows(LevelFilter::Error));
    assert!(!LevelFilter::Trace.allows(LevelFilter::Off));
}

#[test]
fn writer_splits_by_level() {
    let stdio = StdioTracingWriter { writer_mode: TracingWriterMode::Stdio };
    let stdout = StdioTracingWriter { writer_mode: TracingWriterMode::Stdout };
    let stderr = StdioTracingWriter { writer_mode: TracingWriterMode::Stderr };
    assert_eq!(stdio.make_writer(), WriterTarget::Stdout);
    assert_eq!(stdout.make_writer(), WriterTarget::Stdout);
    assert_eq!(stderr.make_writer(), WriterTarget::Stderr);
    assert_eq!(stdio.make_writer_for(LevelFilter::Error), WriterTarget::Stderr);
    assert_eq!(stdio.make_writer_for(LevelFilter::Warn), WriterTarget::Stderr);
    assert_eq!(stdio.make_writer_for(LevelFilter::Info), WriterTarget::Stdout);
    assert_eq!(stdio.make_writer_for(LevelFilter::Trace), WriterTarget::Stdout);
    assert_eq!(stdout.make_writer_for(LevelFilter::Error), WriterTarget::Stdout);
    assert_eq!(stderr.make_writer_for(LevelFilter::Debug), WriterTarget::Stderr);
}

#[test]
fn options_resolve_the_level() {
    let none = TracingSubscriberOptions::default();
    assert_eq!(none.level_filter(), None);
    assert_eq!(none.writer().writer_mode, TracingWriterMode::Stdio);
    let verbose = TracingSubscriberOptions { verbosity: Some(1), ..none };
    assert_eq!(verbose.level_filter(), Some(LevelFilter::Debug));
    let very = TracingSubscriberOptions { verbosity: Some(2), silent: Some(true), ..none };
    assert_eq!(very.level_filter(), Some(LevelFilter::Trace));
    let odd = TracingSubscriberOptions { verbosity: Some(3), silent: Some(true), ..none };
    assert_eq!(odd.level_filter(), Some(LevelFilter::Off));
    let loud = TracingSubscriberOptions { verbosity: Some(3), silent: Some(false), ..none };
    assert_eq!(loud.level_filter(), None);
    let named = TracingSubscriberOptions {
        log_level: Some(LevelFilter::Warn),
        verbosity: Some(2),
        writer_mode: Some(TracingWriterMode::Stderr),
        ..none
    };
    assert_eq!(named.level_filter(), Some(LevelFilter::Warn));
    assert_eq!(named.writer().writer_mode, TracingWriterMode::Stderr);
}

#[test]
fn completion_offers_keywords_by_prefix() {
    assert_eq!(keywords(), vec!["use", "fn", "link", "pub", "crate::", "dep"]);
    assert_eq!(handle_completion(""), vec!["use", "fn", "link", "pub", "crate::", "dep"]);
    assert_eq!(handle_completion("p"), vec!["pub"]);
    assert_eq!(handle_completion("cr"), vec!["crate::"]);
    assert_eq!(handle_completion("x"), Vec::<&str>::new());
    assert_eq!(handle_completion("used"), Vec::<&str>::new());
}

#[test]
fn design_macro_is_found_anywhere() {
    assert!(has_live_design_macro("live_design!{"));
    assert!(has_live_design_macro("use x;\nlive_design!{ App = {} }"));
    assert!(!has_live_design_macro("live_design! {"));
    assert!(!has_live_design_macro("live_design!"));
    assert!(!has_live_design_macro(""));
}
