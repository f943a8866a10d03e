use apt_fetcher::upgrade::{install_core_packages, upgrade, upgrade_packages, UpgradeStep};

fn core_packages() -> Vec<String> {
    vec!["systemd".to_string(), "pop-desktop".to_string()]
}

#[test]
fn core_packages_are_installed_first() {
    match upgrade(&core_packages(), vec![]) {
        UpgradeStep::Run(command) => {
            assert_eq!(command.program, "aptitude");
            assert_eq!(command.args, vec!["install", "-y", "systemd", "pop-desktop"]);
        }
        _ => panic!(),
    }
}

#[test]
fn packages_are_upgraded_after_the_core() {
    match upgrade(&core_packages(), vec![Ok(())]) {
        UpgradeStep::Run(command) => {
            assert_eq!(command.program, "aptitude");
            assert_eq!(command.args, vec!["upgrade", "-y"]);
        }
        _ => panic!(),
    }
    assert!(matches!(upgrade(&core_packages(), vec![Ok(()), Ok(())]), UpgradeStep::Done));
}

fn failed(text: &str) -> Result<(), std::io::Error> {
    Err(std::io::Error::new(std::io::ErrorKind::Other, text.to_string()))
}

#[test]
fn first_failure_ends_the_upgrade() {
    for outcomes in vec![vec![failed("x")], vec![failed("x"), failed("y")], vec![Ok(()), failed("x")]] {
        match upgrade(&core_packages(), outcomes) {
            UpgradeStep::Failed(why) => assert_eq!(why.to_string(), "x"),
            _ => panic!(),
        }
    }
}

#[test]
fn commands_can_be_had_singly() {
    assert_eq!(upgrade_packages().args, vec!["upgrade", "-y"]);
    assert_eq!(install_core_packages(&vec![]).args, vec!["install", "-y"]);
}
