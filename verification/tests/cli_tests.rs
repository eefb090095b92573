use darklua_core::cli::{Command, Darklua, GlobalOptions, LevelFilter};

#[test]
fn verbosity_selects_the_log_level() {
    assert_eq!(GlobalOptions::new(0).get_log_level_filter(), LevelFilter::Warn);
    assert_eq!(GlobalOptions::new(1).get_log_level_filter(), LevelFilter::Info);
    assert_eq!(GlobalOptions::new(2).get_log_level_filter(), LevelFilter::Debug);
    assert_eq!(GlobalOptions::new(3).get_log_level_filter(), LevelFilter::Trace);
    assert_eq!(GlobalOptions::new(255).get_log_level_filter(), LevelFilter::Trace);
}

#[test]
fn darklua_delegates_to_its_global_options() {
    let darklua = Darklua::new(GlobalOptions::new(2), Command::Minify);
    assert_eq!(darklua.get_log_level_filter(), LevelFilter::Debug);
}
