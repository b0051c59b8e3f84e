use scheval::{get_config, Config};

fn names(list: &[&str]) -> Vec<String> {
    list.iter().map(|s| s.to_string()).collect()
}

#[test]
fn no_strategy_named_enables_all() {
    assert_eq!(get_config(&names(&[])), Config { vscode: true, suffix: true });
}

#[test]
fn named_strategies_only() {
    assert_eq!(get_config(&names(&["vscode"])), Config { vscode: true, suffix: false });
    assert_eq!(get_config(&names(&["suffix"])), Config { vscode: false, suffix: true });
    assert_eq!(get_config(&names(&["suffix", "vscode"])), Config { vscode: true, suffix: true });
    assert_eq!(get_config(&names(&["other"])), Config { vscode: false, suffix: false });
}

