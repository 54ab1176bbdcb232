use fumofetch::probes::{
    cpu_from, hostname_from, kernel_from, memory_from, memory_kb, os_name_from, packages_from,
    shell_from,
};

#[test]
fn hostname_is_trimmed() {
    assert_eq!(hostname_from(Some("  box\n")), "box");
    assert_eq!(hostname_from(None), "Unknown");
}

#[test]
fn os_name_strips_quotes() {
    let content = "NAME=\"Ubuntu\"\nPRETTY_NAME=\"Ubuntu 22.04\"\nID=ubuntu\n";
    assert_eq!(os_name_from(Some(content)), "Ubuntu 22.04");
}

#[test]
fn os_name_first_match_and_placeholder() {
    assert_eq!(os_name_from(Some("PRETTY_NAME=Arch\nPRETTY_NAME=Other\n")), "Arch");
    assert_eq!(os_name_from(Some("NAME=x\n")), "Linux");
    assert_eq!(os_name_from(None), "Linux");
    assert_eq!(os_name_from(Some(" PRETTY_NAME=\"x\"")), "Linux");
}

#[test]
fn kernel_is_trimmed() {
    assert_eq!(kernel_from("6.1.0-13-amd64\n"), "6.1.0-13-amd64");
}

#[test]
fn shell_takes_last_segment() {
    assert_eq!(shell_from(Some("/usr/bin/zsh")), "zsh");
    assert_eq!(shell_from(Some("fish")), "fish");
    assert_eq!(shell_from(Some("/bin/")), "");
    assert_eq!(shell_from(None), "Unknown");
}

#[test]
fn packages_prefer_dpkg() {
    let listing = "a\tinstall\nb\tinstall\nc\tinstall\n";
    assert_eq!(packages_from(Some(listing), Some("x\n"), None), "3 (apt)");
    assert_eq!(packages_from(Some(""), Some("x\n"), Some("y\n")), "0 (apt)");
}

#[test]
fn packages_fall_back_in_order() {
    assert_eq!(packages_from(None, Some("x 1\ny 2\n"), Some("z\n")), "2 (pacman)");
    assert_eq!(packages_from(None, None, Some("z\nw\nv")), "3 (rpm)");
    assert_eq!(packages_from(None, None, None), "Unknown");
}

#[test]
fn cpu_model_name() {
    let content = "processor\t: 0\nvendor_id\t: GenuineIntel\nmodel name\t: Intel(R) Core(TM) i7\nmodel name\t: other\n";
    assert_eq!(cpu_from(Some(content)), "Intel(R) Core(TM) i7");
}

#[test]
fn cpu_placeholders() {
    assert_eq!(cpu_from(Some("processor : 0\n")), "Unknown CPU");
    assert_eq!(cpu_from(None), "Unknown CPU");
    assert_eq!(cpu_from(Some("model name without colon\n")), "Unknown");
}

#[test]
fn memory_from_meminfo() {
    let content = "MemTotal:        8000000 kB\nMemFree:  100 kB\nMemAvailable:    2000000 kB\n";
    let (used, total) = memory_from(Some(content));
    assert_eq!(used, "5.72 GB");
    assert_eq!(total, "7.63 GB");
}

#[test]
fn memory_missing_defaults_to_zero() {
    let (used, total) = memory_from(None);
    assert_eq!(used, "0.00 MB");
    assert_eq!(total, "0.00 MB");
    assert_eq!(memory_kb(Some("MemTotal: lots kB\n")), (0, 0));
}

#[test]
fn memory_last_readable_line_wins() {
    assert_eq!(memory_kb(Some("MemTotal: 10 kB\nMemTotal: 20 kB\nMemTotal: x kB\nMemAvailable: +5 kB")), (20, 5));
}

#[test]
fn memory_available_above_total_shows_zero_used() {
    let (used, total) = memory_from(Some("MemTotal: 1024 kB\nMemAvailable: 2048 kB\n"));
    assert_eq!(used, "0.00 MB");
    assert_eq!(total, "1.00 MB");
}
