use fumofetch::gpu::{gpu_from_line, gpu_info, GpuSources, GpuVendor};
use fumofetch::report::{
    default_logo, display_lines, get_system_info, info_lines, user_from_command, user_from_env,
    Sources, SystemInfo,
};

fn no_gpu() -> GpuSources {
    GpuSources {
        lspci: None,
        nvidia_smi_name: None,
        lshw: None,
        nvidia_smi_driver: None,
        modinfo_nvidia: None,
        amdgpu_loaded: false,
        modinfo_amdgpu: None,
        radeon_loaded: false,
        modinfo_radeon: None,
        i915_loaded: false,
        modinfo_i915: None,
        glxinfo: None,
    }
}

fn sample_sources() -> Sources {
    let mut gpu = no_gpu();
    gpu.lspci = Some(
        "00:00.0 Host bridge: Intel Corporation Device\n01:00.0 VGA compatible controller: NVIDIA Corporation GA104 [GeForce RTX 3070] (rev a1)\n"
            .to_string(),
    );
    gpu.nvidia_smi_driver = Some("535.54.03\n".to_string());
    Sources {
        hostname: Some("box\n".to_string()),
        os_release: Some("PRETTY_NAME=\"Debian GNU/Linux 12\"\n".to_string()),
        kernel: "6.1.0\n".to_string(),
        uptime: Some("3661.5 100.0\n".to_string()),
        shell: Some("/bin/bash".to_string()),
        term: Some("xterm-256color".to_string()),
        dpkg: Some("a install\nb install\n".to_string()),
        pacman: None,
        rpm: None,
        cpuinfo: Some("model name : Ryzen 7\n".to_string()),
        meminfo: Some("MemTotal: 8000000 kB\nMemAvailable: 2000000 kB\n".to_string()),
        gpu,
    }
}

fn fields(i: &SystemInfo) -> Vec<String> {
    vec![
        i.hostname.clone(),
        i.os.clone(),
        i.kernel.clone(),
        i.uptime.clone(),
        i.shell.clone(),
        format!("{:?}", i.terminal),
        i.packages.clone(),
        i.cpu.clone(),
        i.gpu.clone(),
        i.gpu_driver.clone(),
        i.memory.0.clone(),
        i.memory.1.clone(),
    ]
}

#[test]
fn report_from_sources() {
    let info = get_system_info(&sample_sources());
    assert_eq!(
        fields(&info),
        vec![
            "box",
            "Debian GNU/Linux 12",
            "6.1.0",
            "1h 1m",
            "bash",
            "Some(\"xterm-256color\")",
            "2 (apt)",
            "Ryzen 7",
            "NVIDIA Corporation GA104 [GeForce RTX 3070] (rev a1)",
            "535.54.03",
            "5.72 GB",
            "7.63 GB",
        ]
    );
}

#[test]
fn report_is_repeatable() {
    let a = get_system_info(&sample_sources());
    let b = get_system_info(&sample_sources());
    assert_eq!(fields(&a), fields(&b));
}

#[test]
fn report_placeholders() {
    let src = Sources {
        hostname: None,
        os_release: None,
        kernel: "k".to_string(),
        uptime: None,
        shell: None,
        term: None,
        dpkg: None,
        pacman: None,
        rpm: None,
        cpuinfo: None,
        meminfo: None,
        gpu: no_gpu(),
    };
    let info = get_system_info(&src);
    assert_eq!(
        fields(&info),
        vec![
            "Unknown", "Linux", "k", "Unknown", "Unknown", "None", "Unknown", "Unknown CPU",
            "Unknown GPU", "Unknown", "0.00 MB", "0.00 MB",
        ]
    );
}

#[test]
fn gpu_line_needs_lowercase_match() {
    let line = "00:02.0 VGA controller: Intel UHD 620";
    let found = gpu_from_line(line, &line.to_lowercase()).unwrap();
    assert_eq!(found.0, "Intel UHD 620");
    assert_eq!(found.1, GpuVendor::Intel);
    assert!(gpu_from_line(line, line).is_none());
}

#[test]
fn gpu_vendor_words_match_inside_other_words() {
    let line = "01:00.0 VGA compatible controller: Intel Corporation UHD 620";
    let found = gpu_from_line(line, &line.to_lowercase()).unwrap();
    assert_eq!(found.0, "Intel Corporation UHD 620");
    assert_eq!(found.1, GpuVendor::Amd);
}

#[test]
fn gpu_line_vendors() {
    let l = "03:00.0 Display controller: Advanced Micro Devices, Inc. [AMD/ATI] Navi";
    assert_eq!(gpu_from_line(l, &l.to_lowercase()).unwrap().1, GpuVendor::Amd);
    let l = "03:00.0 3D controller: Acme Graphics";
    assert_eq!(gpu_from_line(l, &l.to_lowercase()).unwrap().1, GpuVendor::Other);
    let l = "VGA: two fields only";
    assert!(gpu_from_line(l, &l.to_lowercase()).is_none());
}

#[test]
fn gpu_intel_driver_from_module() {
    let mut g = no_gpu();
    g.lspci = Some("00:02.0 VGA controller: Intel UHD 620\n".to_string());
    g.i915_loaded = true;
    g.modinfo_i915 = Some("filename: /x/i915.ko\nversion: 1.6.0\n".to_string());
    let (name, driver) = gpu_info(&g);
    assert_eq!(name, "Intel UHD 620");
    assert_eq!(driver, "i915 1.6.0");
}

#[test]
fn gpu_amd_driver_falls_back_to_mesa() {
    let mut g = no_gpu();
    g.lspci = Some("03:00.0 VGA compatible controller: AMD Radeon RX 6600\n".to_string());
    g.amdgpu_loaded = false;
    g.modinfo_amdgpu = Some("version: 9\n".to_string());
    g.glxinfo = Some("OpenGL vendor string: AMD\nOpenGL version string: 4.6 (Compat) Mesa 23.2.1 \n".to_string());
    assert_eq!(gpu_info(&g).1, "Mesa 23.2.1");
    g.amdgpu_loaded = true;
    assert_eq!(gpu_info(&g).1, "AMDGPU 9");
}

#[test]
fn gpu_radeon_driver() {
    let mut g = no_gpu();
    g.lshw = Some("  *-display\n       product: Radeon HD 7870\n".to_string());
    g.radeon_loaded = true;
    g.modinfo_radeon = Some("version: 2.50.0\n".to_string());
    assert_eq!(gpu_info(&g), ("Radeon HD 7870".to_string(), "Radeon 2.50.0".to_string()));
}

#[test]
fn gpu_nvidia_smi_fallback() {
    let mut g = no_gpu();
    g.lspci = Some("00:00.0 Host bridge: Something\n".to_string());
    g.nvidia_smi_name = Some("NVIDIA GeForce RTX 4090\n".to_string());
    g.nvidia_smi_driver = Some("  \n".to_string());
    g.modinfo_nvidia = Some("filename: x\nversion:        550.67\n".to_string());
    assert_eq!(gpu_info(&g), ("NVIDIA GeForce RTX 4090".to_string(), "550.67".to_string()));
    g.modinfo_nvidia = None;
    assert_eq!(gpu_info(&g).1, "Unknown");
}

#[test]
fn gpu_unknown() {
    let mut g = no_gpu();
    g.nvidia_smi_name = Some(String::new());
    assert_eq!(gpu_info(&g), ("Unknown GPU".to_string(), "Unknown".to_string()));
}

#[test]
fn user_name_sources() {
    assert_eq!(user_from_env(Some("ann"), Some("bob")), Some("ann".to_string()));
    assert_eq!(user_from_env(None, Some("bob")), Some("bob".to_string()));
    assert_eq!(user_from_env(None, None), None);
    assert_eq!(user_from_command("carol\n"), "carol");
}

#[test]
fn rendered_info_lines() {
    let info = get_system_info(&sample_sources());
    let lines = info_lines(&info, "ann");
    assert_eq!(lines.len(), 11);
    assert_eq!(lines[0], "\x1b[1;36mann@box\x1b[0m");
    assert_eq!(lines[1], "\x1b[1;32mOS:\x1b[0m Debian GNU/Linux 12");
    assert_eq!(lines[5], "\x1b[1;32mTerminal:\x1b[0m xterm-256color");
    assert_eq!(lines[10], "\x1b[1;32mMemory:\x1b[0m 5.72 GB / 7.63 GB");
}

#[test]
fn display_with_default_logo() {
    let info = get_system_info(&sample_sources());
    let logo = default_logo();
    assert_eq!(logo.len(), 8);
    assert_eq!(logo[6], "/_-''    ''-_\\");
    let rows = display_lines(&info, "ann", &logo);
    assert_eq!(rows.len(), 11);
    assert_eq!(rows[0], "      /\\          \x1b[1;36mann@box\x1b[0m");
    assert_eq!(rows[8], format!("{}\x1b[1;32mGPU:\x1b[0m NVIDIA Corporation GA104 [GeForce RTX 3070] (rev a1)", " ".repeat(18)));
}
