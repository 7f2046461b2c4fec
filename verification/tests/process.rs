use shader_patcher::error::Error;
use shader_patcher::process::{find_module, find_pid, ModuleEntry, ProcessEntry};

fn proc(name: &str, pid: u32) -> ProcessEntry {
    ProcessEntry { exe_file: name.to_string(), pid }
}

#[test]
fn first_process_with_the_name_is_found() {
    let ps = vec![proc("System", 4), proc("dwm.exe", 1200), proc("dwm.exe", 1300)];
    assert_eq!(find_pid(&ps, "dwm.exe"), Ok(1200));
    assert_eq!(find_pid(&ps, "explorer.exe"), Err(Error::ProcessNotFound("explorer.exe".to_string())));
    assert_eq!(find_pid(&vec![], "dwm.exe"), Err(Error::ProcessNotFound("dwm.exe".to_string())));
}

#[test]
fn module_is_found_by_name() {
    let ms = vec![
        ModuleEntry { module: "dwm.exe".to_string(), base_address: 0x1000, base_size: 0x100 },
        ModuleEntry { module: "dwmcore.dll".to_string(), base_address: 0x7ff0_0000, base_size: 0x20_0000 },
    ];
    assert_eq!(find_module(&ms, "dwmcore.dll", 77), Ok((0x7ff0_0000, 0x20_0000)));
    assert_eq!(find_module(&ms, "d3d11.dll", 77), Err(Error::ModuleNotFound("d3d11.dll".to_string(), 77)));
}
