use shader_patcher::args::{plan_execution, serialized_args, startup_task_args, Commands, Options, StartupArg, Task};
use shader_patcher::floats::bits_eq;

fn bits(x: f32) -> u32 {
    x.to_bits()
}

#[test]
fn subcommands_choose_their_task() {
    assert_eq!(plan_execution(Some(Commands::Restore), true), Task::KillDwm);
    assert_eq!(plan_execution(Some(Commands::Schedule), false), Task::RegisterStartup);
    assert_eq!(plan_execution(Some(Commands::Unschedule), false), Task::UnregisterStartup { all_users: false });
    assert_eq!(plan_execution(Some(Commands::UnscheduleAll), false), Task::UnregisterStartup { all_users: true });
    assert_eq!(
        plan_execution(Some(Commands::Dump { big_shaders: true, output_dir: "out".to_string() }), false),
        Task::DumpShaders { only_big: true, output_dir: "out".to_string() }
    );
}

#[test]
fn without_subcommand_the_mode_decides() {
    assert_eq!(plan_execution(None, true), Task::PatchDwm);
    assert_eq!(plan_execution(None, false), Task::RunInTray);
}

fn options(i: bool, s: bool, c: bool, w: f32, b: f32, g: f32) -> Options {
    Options {
        ignore_whitelist: i,
        skip_patching: s,
        compatibility_mode: c,
        wait_time: bits(w),
        brightness: bits(b),
        gamma: bits(g),
    }
}

#[test]
fn default_values_give_no_arguments() {
    assert_eq!(serialized_args(&options(false, false, false, 5.0, 1.0, 2.2)), vec![]);
}

#[test]
fn serialized_arguments_in_order() {
    assert_eq!(
        serialized_args(&options(true, true, true, 3.0, 1.5, 2.4)),
        vec![
            StartupArg::IgnoreWhitelist,
            StartupArg::SkipPatching,
            StartupArg::CompatibilityMode,
            StartupArg::WaitTime(bits(3.0)),
            StartupArg::Brightness(bits(1.5)),
            StartupArg::Gamma(bits(2.4)),
        ]
    );
    assert_eq!(serialized_args(&options(false, true, false, 5.0, 1.0, 2.2)), vec![StartupArg::SkipPatching]);
}

#[test]
fn brightness_argument_carries_the_brightness() {
    assert_eq!(
        serialized_args(&options(false, false, false, 5.0, 1.5, 2.2)),
        vec![StartupArg::Brightness(bits(1.5))]
    );
}

#[test]
fn negative_zero_equals_its_default_of_zero_only() {
    assert_eq!(
        serialized_args(&options(false, false, false, 5.0, 1.0, -0.0)),
        vec![StartupArg::Gamma(bits(-0.0))]
    );
}

#[test]
fn startup_task_gets_the_gamma_only() {
    assert_eq!(startup_task_args(bits(2.2)), vec![]);
    assert_eq!(startup_task_args(bits(2.4)), vec![StartupArg::Gamma(bits(2.4))]);
    assert_eq!(startup_task_args(bits(f32::NAN)), vec![StartupArg::Gamma(bits(f32::NAN))]);
}

#[test]
fn bits_eq_matches_float_equality() {
    let samples = [0.0f32, -0.0, 1.0, -1.0, 2.2, f32::NAN, f32::INFINITY, f32::NEG_INFINITY, 1e-45];
    for a in samples {
        for b in samples {
            assert_eq!(bits_eq(a.to_bits(), b.to_bits()), a == b, "{:?} {:?}", a, b);
        }
    }
}
