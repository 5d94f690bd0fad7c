use kimi_pet::updater::{
    check_and_prompt, check_update, check_with_retry, download_message, install_and_restart,
    progress, prompt_install, prompt_message, Check, Install, Retry, CHECK_INTERVAL, RETRY_DELAY,
    UPDATE_TIMEOUT,
};

#[test]
fn times() {
    assert_eq!(CHECK_INTERVAL, 6 * 3600);
    assert_eq!(UPDATE_TIMEOUT, 30);
    assert_eq!(RETRY_DELAY, 3);
}

#[test]
fn three_checks_with_growing_waits() {
    let (retry, wait) = check_with_retry(Retry::new());
    assert_eq!(wait, Some(2));
    let (retry, wait) = check_with_retry(retry);
    assert_eq!(wait, Some(4));
    let (_, wait) = check_with_retry(retry);
    assert_eq!(wait, None);
}

#[test]
fn answers_to_a_check() {
    let found = Check::Found { version: "1.2.3".to_string() };
    let answer = check_update(&found);
    assert_eq!(answer.text, Ok("update:1.2.3".to_string()));
    assert!(answer.prompt);
    assert!(check_and_prompt(&found));
    let answer = check_update(&Check::Latest);
    assert_eq!(answer.text, Ok("latest".to_string()));
    assert!(!answer.prompt);
    assert!(!check_and_prompt(&Check::Latest));
    let failed = Check::Failed { message: "no net".to_string() };
    let answer = check_update(&failed);
    assert_eq!(answer.text, Err("no net".to_string()));
    assert!(!answer.prompt);
    assert!(!check_and_prompt(&failed));
}

#[test]
fn messages() {
    assert_eq!(
        prompt_message("1.2.3"),
        "发现新版本 v1.2.3，现在更新？\n将自动下载安装并重启桌宠。"
    );
    assert_eq!(download_message("1.2.3"), "正在下载 v1.2.3……\n完成后将自动重启桌宠。");
}

#[test]
fn installs_only_with_consent() {
    assert!(prompt_install(Some(true)));
    assert!(!prompt_install(Some(false)));
    assert!(!prompt_install(None));
}

#[test]
fn two_downloads() {
    let failure: Result<(), String> = Err("bad".to_string());
    assert!(matches!(install_and_restart(1, &Ok(())), Install::Restart));
    assert!(matches!(install_and_restart(2, &Ok(())), Install::Restart));
    assert!(matches!(install_and_restart(1, &failure), Install::Again { delay: 3 }));
    match install_and_restart(2, &failure) {
        Install::GiveUp { message } => assert_eq!(message, "更新失败：bad"),
        _ => panic!("not given up"),
    }
}

#[test]
fn a_word_per_mebibyte() {
    let mut sum = 0;
    assert_eq!(progress(&mut sum, 1_048_575), None);
    assert_eq!(progress(&mut sum, 1), Some(1_048_576));
    assert_eq!(progress(&mut sum, 0), None);
    assert_eq!(progress(&mut sum, 3_000_000), Some(4_048_576));
    assert_eq!(sum, 4_048_576);
}
