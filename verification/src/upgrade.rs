//! The upgrade of all packages, in which the core packages are retained.
use crate::command::{AptCommand, AptCommandView};
use crate::text::texts;
use vstd::prelude::*;
use vstd::string::*;

verus! {

/// What comes next in an upgrade.
pub enum UpgradeStep {
    /// Run this command, and note how it ended.
    Run(AptCommand),
    /// Both commands succeeded.
    Done,
    /// A command failed for this reason; nothing else is to be run.
    Failed(std::io::Error),
}

/// The command that installs the core packages.
pub open spec fn install_command(core_packages: Seq<Seq<char>>) -> AptCommandView {
    AptCommandView {
        program: "aptitude"@,
        args: seq!["install"@, "-y"@] + core_packages,
        env: seq![],
    }
}

/// The command that upgrades every package.
pub open spec fn upgrade_command() -> AptCommandView {
    AptCommandView { program: "aptitude"@, args: seq!["upgrade"@, "-y"@], env: seq![] }
}

/// Whether `step` follows on the outcomes of the commands run so far: the core
/// packages are installed first, the packages are upgraded where that succeeded,
/// and the first failure ends the upgrade with its reason.
pub open spec fn follows(
    step: UpgradeStep,
    core_packages: Seq<Seq<char>>,
    outcomes: Seq<Result<(), std::io::Error>>,
) -> bool {
    if outcomes.len() == 0 {
        step matches UpgradeStep::Run(c) && c@ == install_command(core_packages)
    } else if outcomes[0] is Err {
        step == UpgradeStep::Failed(outcomes[0]->Err_0)
    } else if outcomes.len() == 1 {
        step matches UpgradeStep::Run(c) && c@ == upgrade_command()
    } else if outcomes[1] is Err {
        step == UpgradeStep::Failed(outcomes[1]->Err_0)
    } else {
        step is Done
    }
}

/// Upgrades all packages, ensuring that the core packages are retained: says what
/// is to be done once the commands named so far ended with `outcomes`.
pub fn upgrade(
    core_packages: &Vec<String>,
    outcomes: Vec<Result<(), std::io::Error>>,
) -> (step: UpgradeStep)
    ensures
        follows(step, texts(core_packages@), outcomes@),
{
    let mut left = outcomes;
    if left.len() == 0 {
        return UpgradeStep::Run(install_core_packages(core_packages));
    }
    if let Err(why) = left.remove(0) {
        return UpgradeStep::Failed(why);
    }
    if left.len() == 0 {
        return UpgradeStep::Run(upgrade_packages());
    }
    if let Err(why) = left.remove(0) {
        return UpgradeStep::Failed(why);
    }
    UpgradeStep::Done
}

/// The command that upgrades every package.
pub fn upgrade_packages() -> (r: AptCommand)
    ensures
        r@ == upgrade_command(),
{
    AptCommand::with_two("aptitude", "upgrade", "-y")
}

/// The command that installs the core packages.
pub fn install_core_packages(core_packages: &Vec<String>) -> (r: AptCommand)
    ensures
        r@ == install_command(texts(core_packages@)),
{
    let mut command = AptCommand::with_two("aptitude", "install", "-y");
    let ghost core = texts(core_packages@);
    assert(core.take(0) =~= Seq::<Seq<char>>::empty());
    assert(seq!["install"@, "-y"@] + core.take(0) =~= seq!["install"@, "-y"@]);
    for i in 0..core_packages.len()
        invariant
            core == texts(core_packages@),
            command@ == (AptCommandView {
                program: "aptitude"@,
                args: seq!["install"@, "-y"@] + core.take(i as int),
                env: seq![],
            }),
    {
        let ghost before = command.args@;
        command.args.push(core_packages[i].clone());
        assert(texts(command.args@) =~= texts(before).push(
            core[i as int],
        ));
        assert(core.take(i + 1) =~= core.take(i as int).push(core[i as int]));
        assert(seq!["install"@, "-y"@] + core.take(i + 1) =~= (seq!["install"@, "-y"@] + core.take(
            i as int,
        )).push(core[i as int]));
    }
    assert(core.take(core.len() as int) == core);
    command
}

/// The packages are upgraded only once the core packages were installed, the upgrade
/// succeeds exactly where both commands succeeded, and where one failed, the reason of
/// the first that did is handed out.
pub proof fn upgrade_needs_core_packages(
    step: UpgradeStep,
    core_packages: Seq<Seq<char>>,
    outcomes: Seq<Result<(), std::io::Error>>,
)
    requires
        follows(step, core_packages, outcomes),
    ensures
        step matches UpgradeStep::Run(c) && c@ == upgrade_command() ==> outcomes.len() == 1
            && outcomes[0] is Ok,
        step is Done <==> outcomes.len() >= 2 && outcomes[0] is Ok && outcomes[1] is Ok,
        step matches UpgradeStep::Failed(why) ==> exists|i: int|
            0 <= i < outcomes.len() && i < 2 && #[trigger] outcomes[i] == Err::<
                (),
                std::io::Error,
            >(why) && (forall|j: int| 0 <= j < i ==> outcomes[j] is Ok),
        (exists|i: int| 0 <= i < outcomes.len() && i < 2 && #[trigger] outcomes[i] is Err)
            ==> step is Failed,
{
    reveal_strlit("install");
    reveal_strlit("upgrade");
    assert(install_command(core_packages).args[0] == "install"@);
    assert(upgrade_command().args[0] == "upgrade"@);
    assert("install"@[0] != "upgrade"@[0]);
    if let UpgradeStep::Failed(why) = step {
        let i: int = if outcomes[0] is Err {
            0
        } else {
            1
        };
        assert(outcomes[i] == Err::<(), std::io::Error>(why));
    }
}

/// The core packages are installed first, all of them in one command; then, where that succeeded,
/// every package is upgraded by another; and then all is done, where that succeeded too. The first
/// command that fails is the last, and its reason is handed out.
pub proof fn commands_are_run_in_turn(
    core_packages: &Vec<String>,
    outcomes: Vec<Result<(), std::io::Error>>,
    step: UpgradeStep,
)
    requires
        call_ensures(upgrade, (core_packages, outcomes), step),
    ensures
        outcomes@.len() == 0 ==> (step matches UpgradeStep::Run(c) && c.program@ == "aptitude"@
            && texts(c.args@) == seq!["install"@, "-y"@] + texts(core_packages@) && c.env@.len()
            == 0),
        outcomes@.len() == 1 && outcomes@[0] is Ok ==> (step matches UpgradeStep::Run(c)
            && c.program@ == "aptitude"@ && texts(c.args@) == seq!["upgrade"@, "-y"@]
            && c.env@.len() == 0),
        outcomes@.len() > 0 ==> (outcomes@[0] matches Err(e) ==> step == UpgradeStep::Failed(e)),
        outcomes@.len() > 1 && outcomes@[0] is Ok ==> match outcomes@[1] {
            Ok(_) => step is Done,
            Err(e) => step == UpgradeStep::Failed(e),
        },
{
    if let UpgradeStep::Run(c) = step {
        assert(crate::command::variables(c.env@).len() == c.env@.len());
    }
}

} // verus!
