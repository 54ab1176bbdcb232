//! The report: every field probed from the gathered texts, rendered as
//! colored labelled lines beside the logo.
use vstd::prelude::*;
use crate::format::{unknown, uptime_from, uptime_of, memory_text};
use crate::gpu::{gpu_info, gpu_of, opt_str, text_view, GpuSources, GpuView};
use crate::layout::{compose_columns, max_width, row, row_count, string_views, GAP};
use crate::probes::{
    cpu_from, cpu_of, hostname_from, hostname_of, kernel_from, memory_from, mem_total_of,
    mem_used_of, os_name_from, os_name_of, packages_from, packages_of, shell_from, shell_of,
};
use crate::text::{chars_of, string_of, trim, trim_chars};

verus! {

/// Every text the probes read: a file's content or a command's output where
/// it could be had, an environment variable where it is set.
pub struct Sources {
    /// The hostname file.
    pub hostname: Option<String>,
    /// The os-release file.
    pub os_release: Option<String>,
    /// The output of the kernel release command.
    pub kernel: String,
    /// The uptime file.
    pub uptime: Option<String>,
    /// The `SHELL` variable.
    pub shell: Option<String>,
    /// The `TERM` variable.
    pub term: Option<String>,
    /// The package listing of `dpkg --get-selections`.
    pub dpkg: Option<String>,
    /// The package listing of `pacman -Q`.
    pub pacman: Option<String>,
    /// The package listing of `rpm -qa`.
    pub rpm: Option<String>,
    /// The cpuinfo file.
    pub cpuinfo: Option<String>,
    /// The meminfo file.
    pub meminfo: Option<String>,
    /// What graphics detection reads.
    pub gpu: GpuSources,
}

/// The texts of `Sources`.
pub struct SourcesView {
    pub hostname: Option<Seq<char>>,
    pub os_release: Option<Seq<char>>,
    pub kernel: Seq<char>,
    pub uptime: Option<Seq<char>>,
    pub shell: Option<Seq<char>>,
    pub term: Option<Seq<char>>,
    pub dpkg: Option<Seq<char>>,
    pub pacman: Option<Seq<char>>,
    pub rpm: Option<Seq<char>>,
    pub cpuinfo: Option<Seq<char>>,
    pub meminfo: Option<Seq<char>>,
    pub gpu: GpuView,
}

impl View for Sources {
    type V = SourcesView;

    open spec fn view(&self) -> SourcesView {
        SourcesView {
            hostname: text_view(self.hostname),
            os_release: text_view(self.os_release),
            kernel: self.kernel@,
            uptime: text_view(self.uptime),
            shell: text_view(self.shell),
            term: text_view(self.term),
            dpkg: text_view(self.dpkg),
            pacman: text_view(self.pacman),
            rpm: text_view(self.rpm),
            cpuinfo: text_view(self.cpuinfo),
            meminfo: text_view(self.meminfo),
            gpu: self.gpu@,
        }
    }
}

/// The facts shown about the host, each already formatted for display.
pub struct SystemInfo {
    pub hostname: String,
    pub os: String,
    pub kernel: String,
    pub uptime: String,
    pub shell: String,
    pub terminal: Option<String>,
    pub packages: String,
    pub cpu: String,
    pub gpu: String,
    pub gpu_driver: String,
    /// Memory in use, and in all.
    pub memory: (String, String),
}

/// The texts of `SystemInfo`.
pub struct ReportView {
    pub hostname: Seq<char>,
    pub os: Seq<char>,
    pub kernel: Seq<char>,
    pub uptime: Seq<char>,
    pub shell: Seq<char>,
    pub terminal: Option<Seq<char>>,
    pub packages: Seq<char>,
    pub cpu: Seq<char>,
    pub gpu: Seq<char>,
    pub gpu_driver: Seq<char>,
    pub memory_used: Seq<char>,
    pub memory_total: Seq<char>,
}

impl View for SystemInfo {
    type V = ReportView;

    open spec fn view(&self) -> ReportView {
        ReportView {
            hostname: self.hostname@,
            os: self.os@,
            kernel: self.kernel@,
            uptime: self.uptime@,
            shell: self.shell@,
            terminal: text_view(self.terminal),
            packages: self.packages@,
            cpu: self.cpu@,
            gpu: self.gpu@,
            gpu_driver: self.gpu_driver@,
            memory_used: self.memory.0@,
            memory_total: self.memory.1@,
        }
    }
}

/// The uptime shown: read from the uptime file, or the placeholder.
pub open spec fn uptime_field(content: Option<Seq<char>>) -> Seq<char> {
    match content {
        Some(c) => uptime_of(c),
        None => unknown(),
    }
}

/// The report that the gathered texts give.
pub open spec fn report_of(s: SourcesView) -> ReportView {
    ReportView {
        hostname: hostname_of(s.hostname),
        os: os_name_of(s.os_release),
        kernel: trim(s.kernel),
        uptime: uptime_field(s.uptime),
        shell: shell_of(s.shell),
        terminal: s.term,
        packages: packages_of(s.dpkg, s.pacman, s.rpm),
        cpu: cpu_of(s.cpuinfo),
        gpu: gpu_of(s.gpu).0,
        gpu_driver: gpu_of(s.gpu).1,
        memory_used: memory_text(mem_used_of(s.meminfo)),
        memory_total: memory_text(mem_total_of(s.meminfo) as nat),
    }
}

fn copy_text(o: &Option<String>) -> (r: Option<String>)
    ensures
        text_view(r) == text_view(*o),
{
    match o {
        Some(s) => Some(String::from_str(s.as_str())),
        None => None,
    }
}

/// Runs every probe on the gathered texts and assembles the report.
pub fn get_system_info(src: &Sources) -> (r: SystemInfo)
    ensures
        r@ == report_of(src@),
{
    let uptime = match opt_str(&src.uptime) {
        Some(c) => uptime_from(c),
        None => string_of(&['U', 'n', 'k', 'n', 'o', 'w', 'n']),
    };
    let (gpu, gpu_driver) = gpu_info(&src.gpu);
    let r = SystemInfo {
        hostname: hostname_from(opt_str(&src.hostname)),
        os: os_name_from(opt_str(&src.os_release)),
        kernel: kernel_from(src.kernel.as_str()),
        uptime,
        shell: shell_from(opt_str(&src.shell)),
        terminal: copy_text(&src.term),
        packages: packages_from(opt_str(&src.dpkg), opt_str(&src.pacman), opt_str(&src.rpm)),
        cpu: cpu_from(opt_str(&src.cpuinfo)),
        gpu,
        gpu_driver,
        memory: memory_from(opt_str(&src.meminfo)),
    };
    r
}

/// Two reports assembled from the same texts are the same: probing an
/// unchanged system twice shows the same facts.
pub proof fn lemma_report_repeatable(a: &Sources, b: &Sources, ra: &SystemInfo, rb: &SystemInfo)
    requires
        a@ == b@,
        ra@ == report_of(a@),
        rb@ == report_of(b@),
    ensures
        ra@ == rb@,
{
}

/// The user name from the `USER` variable, else from `USERNAME`.
pub open spec fn user_of(user: Option<Seq<char>>, username: Option<Seq<char>>) -> Option<Seq<char>> {
    match user {
        Some(u) => Some(u),
        None => username,
    }
}

pub fn user_from_env(user: Option<&str>, username: Option<&str>) -> (r: Option<String>)
    ensures
        text_view(r) == user_of(crate::probes::opt_view(user), crate::probes::opt_view(username)),
{
    match user {
        Some(u) => Some(String::from_str(u)),
        None => match username {
            Some(u) => Some(String::from_str(u)),
            None => None,
        },
    }
}

/// The user name from the output of the `whoami` command, trimmed.
pub fn user_from_command(output: &str) -> (r: String)
    ensures
        r@ == trim(output@),
{
    let cs = chars_of(output);
    let t = trim_chars(cs.as_slice());
    string_of(t.as_slice())
}

pub open spec fn reset() -> Seq<char> {
    "\x1b[0m"@
}

/// A bold green label followed by its value.
pub open spec fn labelled(label: Seq<char>, value: Seq<char>) -> Seq<char> {
    "\x1b[1;32m"@ + label + reset() + " "@ + value
}

/// The report's lines in display order: `user@host` in bold cyan, then each
/// field under its label; an unset terminal shows as `Unknown`.
pub open spec fn info_lines_of(r: ReportView, user: Seq<char>) -> Seq<Seq<char>> {
    seq![
        "\x1b[1;36m"@ + user + "@"@ + r.hostname + reset(),
        labelled("OS:"@, r.os),
        labelled("Kernel:"@, r.kernel),
        labelled("Uptime:"@, r.uptime),
        labelled("Shell:"@, r.shell),
        labelled(
            "Terminal:"@,
            match r.terminal {
                Some(t) => t,
                None => "Unknown"@,
            },
        ),
        labelled("Packages:"@, r.packages),
        labelled("CPU:"@, r.cpu),
        labelled("GPU:"@, r.gpu),
        labelled("GPU Driver:"@, r.gpu_driver),
        labelled("Memory:"@, r.memory_used + " / "@ + r.memory_total),
    ]
}

fn labelled_line(label: &str, value: &str) -> (r: String)
    ensures
        r@ == labelled(label@, value@),
{
    let mut s = String::from_str("\x1b[1;32m");
    s.append(label);
    s.append("\x1b[0m");
    s.append(" ");
    s.append(value);
    assert(s@ =~= labelled(label@, value@));
    s
}

/// Renders the report as labelled, colored lines.
pub fn info_lines(info: &SystemInfo, user: &str) -> (r: Vec<String>)
    ensures
        string_views(r@) == info_lines_of(info@, user@),
{
    let mut head = String::from_str("\x1b[1;36m");
    head.append(user);
    head.append("@");
    head.append(info.hostname.as_str());
    head.append("\x1b[0m");
    let terminal = match &info.terminal {
        Some(t) => t.as_str(),
        None => "Unknown",
    };
    let mut memory = String::from_str(info.memory.0.as_str());
    memory.append(" / ");
    memory.append(info.memory.1.as_str());
    let mut r: Vec<String> = Vec::new();
    r.push(head);
    r.push(labelled_line("OS:", info.os.as_str()));
    r.push(labelled_line("Kernel:", info.kernel.as_str()));
    r.push(labelled_line("Uptime:", info.uptime.as_str()));
    r.push(labelled_line("Shell:", info.shell.as_str()));
    r.push(labelled_line("Terminal:", terminal));
    r.push(labelled_line("Packages:", info.packages.as_str()));
    r.push(labelled_line("CPU:", info.cpu.as_str()));
    r.push(labelled_line("GPU:", info.gpu.as_str()));
    r.push(labelled_line("GPU Driver:", info.gpu_driver.as_str()));
    r.push(labelled_line("Memory:", memory.as_str()));
    assert(string_views(r@) =~= info_lines_of(info@, user@));
    r
}

/// The lines to print: the logo beside the report's lines.
pub fn display_lines(info: &SystemInfo, user: &str, logo: &Vec<String>) -> (r: Vec<String>)
    requires
        max_width(string_views(logo@)) + GAP <= usize::MAX,
    ensures
        r@.len() == row_count(string_views(logo@), info_lines_of(info@, user@)),
        forall|i: int|
            0 <= i < r@.len() ==> #[trigger] r@[i]@ == row(
                string_views(logo@),
                info_lines_of(info@, user@),
                i,
            ),
{
    let lines = info_lines(info, user);
    compose_columns(logo, &lines)
}

/// The logo shown when no logo file can be read.
pub open spec fn builtin_logo() -> Seq<Seq<char>> {
    seq![
        "      /\\      "@,
        "     /  \\     "@,
        "    /\\   \\    "@,
        "   /      \\   "@,
        "  /   ,,   \\  "@,
        " /   |  |   \\ "@,
        "/_-''    ''-_\\"@,
        "             "@,
    ]
}

pub fn default_logo() -> (r: Vec<String>)
    ensures
        string_views(r@) == builtin_logo(),
{
    let r: Vec<String> = vec![
        String::from_str("      /\\      "),
        String::from_str("     /  \\     "),
        String::from_str("    /\\   \\    "),
        String::from_str("   /      \\   "),
        String::from_str("  /   ,,   \\  "),
        String::from_str(" /   |  |   \\ "),
        String::from_str("/_-''    ''-_\\"),
        String::from_str("             "),
    ];
    assert(string_views(r@) =~= builtin_logo());
    r
}

} // verus!
