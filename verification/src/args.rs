//! The decisions of the command line: which task a command line asks for,
//! and which arguments the startup task is given. Floats are `f32` bits.
use vstd::prelude::*;

verus! {

use crate::floats::{bits_eq, f32_eq, FIVE, GAMMA_2_2, ONE};

/// The default gamma, 2.2.
pub const DEFAULT_GAMMA: u32 = GAMMA_2_2;

/// The default brightness multiplier, 1.0.
pub const DEFAULT_BRIGHTNESS: u32 = ONE;

/// The default delay before patching at start, 5.0 seconds.
pub const DEFAULT_WAIT_TIME: u32 = FIVE;

/// The subcommands.
#[derive(Debug, PartialEq, Eq)]
pub enum Commands {
    /// Restores the original sRGB EOTF by restarting DWM.
    Restore,
    /// Creates the startup task.
    Schedule,
    /// Removes the startup task of the current user.
    Unschedule,
    /// Removes the startup task of all users.
    UnscheduleAll,
    /// Dumps DWM's shaders as DXBC files into `output_dir`; only the
    /// top-level ones when `big_shaders`.
    Dump { big_shaders: bool, output_dir: String },
}

/// What a run of the program does.
#[derive(Debug, PartialEq, Eq)]
pub enum Task {
    /// Restarts DWM.
    KillDwm,
    /// Creates or updates the startup task with the gamma given.
    RegisterStartup,
    /// Removes the startup task, of all users or of the current one.
    UnregisterStartup { all_users: bool },
    /// Dumps the shaders.
    DumpShaders { only_big: bool, output_dir: String },
    /// Patches DWM once and exits.
    PatchDwm,
    /// Runs in the system tray.
    RunInTray,
}

/// The task for a command line: its subcommand when it has one, else patching
/// once in compatibility mode, else tray mode.
pub open spec fn spec_task(command: Option<Commands>, compatibility_mode: bool) -> Task {
    match command {
        Some(Commands::Restore) => Task::KillDwm,
        Some(Commands::Schedule) => Task::RegisterStartup,
        Some(Commands::Unschedule) => Task::UnregisterStartup { all_users: false },
        Some(Commands::UnscheduleAll) => Task::UnregisterStartup { all_users: true },
        Some(Commands::Dump { big_shaders, output_dir }) => Task::DumpShaders {
            only_big: big_shaders,
            output_dir,
        },
        None => if compatibility_mode {
            Task::PatchDwm
        } else {
            Task::RunInTray
        },
    }
}

/// The task for a command line.
pub fn plan_execution(command: Option<Commands>, compatibility_mode: bool) -> (r: Task)
    ensures
        r == spec_task(command, compatibility_mode),
        forall|b: bool, dir: String|
            command == Some((Commands::Dump { big_shaders: b, output_dir: dir })) ==> r == (
            Task::DumpShaders { only_big: b, output_dir: dir }),
        command is None ==> (r == Task::PatchDwm <==> compatibility_mode),
        command is None && !compatibility_mode ==> r == Task::RunInTray,
{
    match command {
        Some(Commands::Restore) => Task::KillDwm,
        Some(Commands::Schedule) => Task::RegisterStartup,
        Some(Commands::Unschedule) => Task::UnregisterStartup { all_users: false },
        Some(Commands::UnscheduleAll) => Task::UnregisterStartup { all_users: true },
        Some(Commands::Dump { big_shaders, output_dir }) => Task::DumpShaders {
            only_big: big_shaders,
            output_dir,
        },
        None => if compatibility_mode {
            Task::PatchDwm
        } else {
            Task::RunInTray
        },
    }
}

/// One argument of a command line that sets an option.
#[derive(Debug, Clone, Copy, PartialEq, Eq)]
pub enum StartupArg {
    /// `-i`
    IgnoreWhitelist,
    /// `-s`
    SkipPatching,
    /// `-c`
    CompatibilityMode,
    /// `-w` and the wait time with these bits.
    WaitTime(u32),
    /// `--brightness` and the brightness multiplier with these bits.
    Brightness(u32),
    /// The gamma with these bits, with three decimals.
    Gamma(u32),
}

/// The options a command line sets: the flags, then the wait time, the
/// brightness and the gamma as `f32` bits.
#[derive(Debug, Clone, Copy, PartialEq, Eq)]
pub struct Options {
    pub ignore_whitelist: bool,
    pub skip_patching: bool,
    pub compatibility_mode: bool,
    pub wait_time: u32,
    pub brightness: u32,
    pub gamma: u32,
}

/// The options when nothing is given.
pub open spec fn default_options() -> Options {
    Options {
        ignore_whitelist: false,
        skip_patching: false,
        compatibility_mode: false,
        wait_time: DEFAULT_WAIT_TIME,
        brightness: DEFAULT_BRIGHTNESS,
        gamma: DEFAULT_GAMMA,
    }
}

/// The options after `a` is read on top of `o`.
pub open spec fn apply_arg(o: Options, a: StartupArg) -> Options {
    match a {
        StartupArg::IgnoreWhitelist => Options { ignore_whitelist: true, ..o },
        StartupArg::SkipPatching => Options { skip_patching: true, ..o },
        StartupArg::CompatibilityMode => Options { compatibility_mode: true, ..o },
        StartupArg::WaitTime(w) => Options { wait_time: w, ..o },
        StartupArg::Brightness(b) => Options { brightness: b, ..o },
        StartupArg::Gamma(g) => Options { gamma: g, ..o },
    }
}

/// The options after the arguments `args` are read, in order, on top of `o`.
pub open spec fn read_args(args: Seq<StartupArg>, o: Options) -> Options
    decreases args.len(),
{
    if args.len() == 0 {
        o
    } else {
        read_args(args.drop_first(), apply_arg(o, args[0]))
    }
}

/// `v`, or the default `d` when `v` compares equal to it.
pub open spec fn normalized(v: u32, d: u32) -> u32 {
    if f32_eq(v, d) {
        d
    } else {
        v
    }
}

/// The arguments that give the options `o`, in order: the flags that are
/// set, then each value that differs from its default.
pub open spec fn spec_serialized_args(o: Options) -> Seq<StartupArg> {
    (if o.ignore_whitelist { seq![StartupArg::IgnoreWhitelist] } else { Seq::empty() }) + (
    if o.skip_patching {
        seq![StartupArg::SkipPatching]
    } else {
        Seq::empty()
    }) + (if o.compatibility_mode { seq![StartupArg::CompatibilityMode] } else { Seq::empty() })
        + (if !f32_eq(o.wait_time, DEFAULT_WAIT_TIME) {
        seq![StartupArg::WaitTime(o.wait_time)]
    } else {
        Seq::empty()
    }) + (if !f32_eq(o.brightness, DEFAULT_BRIGHTNESS) {
        seq![StartupArg::Brightness(o.brightness)]
    } else {
        Seq::empty()
    }) + (if !f32_eq(o.gamma, DEFAULT_GAMMA) {
        seq![StartupArg::Gamma(o.gamma)]
    } else {
        Seq::empty()
    })
}

/// The arguments that give the options `o`.
pub fn serialized_args(o: &Options) -> (r: Vec<StartupArg>)
    ensures
        r@ == spec_serialized_args(*o),
{
    let mut arguments: Vec<StartupArg> = Vec::new();
    if o.ignore_whitelist {
        arguments.push(StartupArg::IgnoreWhitelist);
    }
    if o.skip_patching {
        arguments.push(StartupArg::SkipPatching);
    }
    if o.compatibility_mode {
        arguments.push(StartupArg::CompatibilityMode);
    }
    if !bits_eq(o.wait_time, DEFAULT_WAIT_TIME) {
        arguments.push(StartupArg::WaitTime(o.wait_time));
    }
    if !bits_eq(o.brightness, DEFAULT_BRIGHTNESS) {
        arguments.push(StartupArg::Brightness(o.brightness));
    }
    if !bits_eq(o.gamma, DEFAULT_GAMMA) {
        arguments.push(StartupArg::Gamma(o.gamma));
    }
    proof {
        assert(arguments@ =~= spec_serialized_args(*o));
    }
    arguments
}

/// The arguments the startup task runs the program with: the gamma only, when
/// it differs from the default; no flag is set for the task.
pub open spec fn spec_startup_task_args(gamma: u32) -> Seq<StartupArg> {
    if !f32_eq(gamma, DEFAULT_GAMMA) {
        seq![StartupArg::Gamma(gamma)]
    } else {
        Seq::empty()
    }
}

/// The arguments the startup task runs the program with.
pub fn startup_task_args(gamma: u32) -> (r: Vec<StartupArg>)
    ensures
        r@ == spec_startup_task_args(gamma),
{
    let mut arguments: Vec<StartupArg> = Vec::new();
    if !bits_eq(gamma, DEFAULT_GAMMA) {
        arguments.push(StartupArg::Gamma(gamma));
    }
    proof {
        assert(arguments@ =~= spec_startup_task_args(gamma));
    }
    arguments
}

proof fn lemma_read_args_concat(x: Seq<StartupArg>, y: Seq<StartupArg>, o: Options)
    ensures
        read_args(x + y, o) == read_args(y, read_args(x, o)),
    decreases x.len(),
{
    if x.len() > 0 {
        assert((x + y).drop_first() =~= x.drop_first() + y);
        lemma_read_args_concat(x.drop_first(), y, apply_arg(o, x[0]));
    } else {
        assert(x + y =~= y);
    }
}

proof fn lemma_read_one(a: Seq<StartupArg>, o: Options)
    requires
        a.len() <= 1,
    ensures
        read_args(a, o) == if a.len() == 0 { o } else { apply_arg(o, a[0]) },
{
    if a.len() == 1 {
        let rest = a.drop_first();
        assert(rest.len() == 0);
        assert(read_args(rest, apply_arg(o, a[0])) == apply_arg(o, a[0]));
    }
}

/// Law: reading back the arguments serialized for `o` gives `o`, each value
/// that compares equal to its default read as that default.
pub proof fn lemma_serialized_args_read_back(o: Options)
    ensures
        read_args(spec_serialized_args(o), default_options()) == (Options {
            wait_time: normalized(o.wait_time, DEFAULT_WAIT_TIME),
            brightness: normalized(o.brightness, DEFAULT_BRIGHTNESS),
            gamma: normalized(o.gamma, DEFAULT_GAMMA),
            ..o
        }),
{
    let p1 = if o.ignore_whitelist { seq![StartupArg::IgnoreWhitelist] } else { Seq::empty() };
    let p2 = if o.skip_patching { seq![StartupArg::SkipPatching] } else { Seq::empty() };
    let p3 = if o.compatibility_mode {
        seq![StartupArg::CompatibilityMode]
    } else {
        Seq::empty()
    };
    let p4 = if !f32_eq(o.wait_time, DEFAULT_WAIT_TIME) {
        seq![StartupArg::WaitTime(o.wait_time)]
    } else {
        Seq::empty()
    };
    let p5 = if !f32_eq(o.brightness, DEFAULT_BRIGHTNESS) {
        seq![StartupArg::Brightness(o.brightness)]
    } else {
        Seq::empty()
    };
    let p6 = if !f32_eq(o.gamma, DEFAULT_GAMMA) {
        seq![StartupArg::Gamma(o.gamma)]
    } else {
        Seq::empty()
    };
    let d = default_options();
    lemma_read_args_concat(p1 + p2 + p3 + p4 + p5, p6, d);
    lemma_read_args_concat(p1 + p2 + p3 + p4, p5, d);
    lemma_read_args_concat(p1 + p2 + p3, p4, d);
    lemma_read_args_concat(p1 + p2, p3, d);
    lemma_read_args_concat(p1, p2, d);
    let o1 = read_args(p1, d);
    let o2 = read_args(p2, o1);
    let o3 = read_args(p3, o2);
    let o4 = read_args(p4, o3);
    let o5 = read_args(p5, o4);
    lemma_read_one(p1, d);
    lemma_read_one(p2, o1);
    lemma_read_one(p3, o2);
    lemma_read_one(p4, o3);
    lemma_read_one(p5, o4);
    lemma_read_one(p6, o5);
}

/// Law: the startup task is given no flag; reading its arguments back gives
/// the default options with the gamma given.
pub proof fn lemma_startup_task_has_only_gamma(gamma: u32)
    ensures
        read_args(spec_startup_task_args(gamma), default_options()) == (Options {
            gamma: normalized(gamma, DEFAULT_GAMMA),
            ..default_options()
        }),
{
    lemma_read_one(spec_startup_task_args(gamma), default_options());
}

/// Law: each subcommand picks its own task whatever the mode, and passes
/// its settings through unchanged: `dump` dumps into the directory given,
/// only the top-level shaders exactly when `--big-shaders` is given;
/// `unschedule-all` is the one that removes the task of all users. Without
/// a subcommand the program patches once in compatibility mode and runs in
/// the tray otherwise.
pub proof fn lemma_commands_choose_tasks(c: bool, b: bool, dir: String)
    ensures
        spec_task(Some((Commands::Dump { big_shaders: b, output_dir: dir })), c) == (
        Task::DumpShaders { only_big: b, output_dir: dir }),
        spec_task(Some(Commands::Restore), c) == Task::KillDwm,
        spec_task(Some(Commands::Schedule), c) == Task::RegisterStartup,
        spec_task(Some(Commands::Unschedule), c) == (Task::UnregisterStartup { all_users: false }),
        spec_task(Some(Commands::UnscheduleAll), c) == (Task::UnregisterStartup { all_users: true }),
        spec_task(None, true) == Task::PatchDwm,
        spec_task(None, false) == Task::RunInTray,
{
}

/// Law: with nothing given, no flag is set, the wait is 5.0 seconds
/// (`0x40A00000`), the brightness multiplier 1.0 (`0x3F800000`) and the
/// gamma 2.2 (`0x400CCCCD`).
pub proof fn lemma_default_options()
    ensures
        !default_options().ignore_whitelist,
        !default_options().skip_patching,
        !default_options().compatibility_mode,
        default_options().wait_time == 0x40A0_0000u32,
        default_options().brightness == 0x3F80_0000u32,
        default_options().gamma == 0x400C_CCCDu32,
{
}

} // verus!
