//! The results and messages the UI receives about Node.js, the dsh CLI and its upgrades,
//! and the wording of failures.

use vstd::prelude::*;
use vstd::string::StringExecFns;
use crate::i18n::{pick, tr};
use crate::launch::opt_view;
use crate::semver::{
    at_least, extract_version, lines_view, last_version_in, parse_semver, parse_semver_spec,
    semver_in, version_at_least, version_text, lemma_parse_semver_round_trip,
};

verus! {

/// The oldest Node.js that dsh supports: 22.19.0.
pub open spec fn min_node() -> (u64, u64, u64) {
    (22, 19, 0)
}

/// The oldest supported Node.js version (dsh requires 22.19.0 or newer).
pub fn min_node_version() -> (r: (u64, u64, u64))
    ensures
        r == min_node(),
{
    (22, 19, 0)
}

/// A version string whose core parses and is at least 22.19.0.
pub open spec fn node_supported_spec(v: Seq<char>) -> bool {
    match parse_semver_spec(v) {
        Some(t) => at_least(t, min_node()),
        None => false,
    }
}

/// Support is decided by the numbers of the version, compared as numbers with 22.19.0: a
/// version string is supported exactly when it parses to (major, minor, patch) with a major
/// above 22, or a major of 22 and a minor of at least 19. So `22.9.0` is not supported (minor 9
/// is below 19), while `22.19.0`, `22.20.1` and `23.0.0` are.
pub proof fn lemma_node_supported_numeric(v: Seq<char>)
    ensures
        node_supported_spec(v) <==> exists|a: u64, b: u64, c: u64|
            #[trigger] parse_semver_spec(v) == Some((a, b, c)) && (a > 22 || (a == 22 && b >= 19)),
{
    if let Some((a, b, c)) = parse_semver_spec(v) {
        assert(parse_semver_spec(v) == Some((a, b, c)));
    }
}

/// For a version written `a.b.c` (optionally with a `-pre-release` or `+build` suffix),
/// support depends on the numbers alone: it holds exactly when `a > 22`, or `a == 22` and
/// `b >= 19`, whatever the suffix and however the text compares as a string.
pub proof fn lemma_node_supported_written(a: u64, b: u64, c: u64, suffix: Seq<char>)
    ensures
        node_supported_spec(version_text(a, b, c)) <==> (a > 22 || (a == 22 && b >= 19)),
        node_supported_spec(version_text(a, b, c) + seq!['-'] + suffix) <==> (a > 22 || (a == 22
            && b >= 19)),
        node_supported_spec(version_text(a, b, c) + seq!['+'] + suffix) <==> (a > 22 || (a == 22
            && b >= 19)),
{
    lemma_parse_semver_round_trip(a, b, c, suffix);
}

/// Whether a Node.js version string is supported; an unparseable one is not.
pub fn node_supported(version: &str) -> (b: bool)
    ensures
        b == node_supported_spec(version@),
{
    match parse_semver(version) {
        Some(v) => version_at_least(v, min_node_version()),
        None => false,
    }
}

/// The version reported in a command's captured output, if it ran and printed one.
pub open spec fn version_in_output(out: Option<Seq<char>>) -> Option<Seq<char>> {
    match out {
        Some(o) => semver_in(o),
        None => None,
    }
}

/// The version in a command's captured output: the first semver pattern in it, the output
/// being taken as one line.
pub fn version_from_output(out: Option<String>) -> (r: Option<String>)
    ensures
        opt_view(r) == version_in_output(opt_view(out)),
{
    match out {
        Some(o) => {
            let ghost ov = o@;
            let lines = vec![o];
            assert(lines_view(lines@) =~= seq![ov]);
            assert(seq![ov].drop_last() =~= Seq::<Seq<char>>::empty());
            assert(last_version_in(Seq::<Seq<char>>::empty()) is None);
            assert(seq![ov].last() == ov);
            let r = extract_version(lines.as_slice());
            assert(last_version_in(seq![ov]) == semver_in(ov));
            r
        },
        None => None,
    }
}

/// A version, or `unknown` when none could be read.
pub open spec fn or_unknown(v: Option<Seq<char>>) -> Seq<char> {
    match v {
        Some(s) => s,
        None => "unknown"@,
    }
}

/// The version to show: the one read, or `unknown`.
pub fn version_or_unknown(v: Option<String>) -> (r: String)
    ensures
        r@ == or_unknown(opt_view(v)),
{
    match v {
        Some(s) => s,
        None => String::from_str("unknown"),
    }
}

/// The result of the startup Node.js check.
pub struct NodeCheck {
    pub installed: bool,
    pub version: String,
    pub supported: bool,
    pub message: String,
}

/// The message when no Node.js was found.
pub open spec fn node_missing_text(is_zh: bool) -> Seq<char> {
    pick(
        is_zh,
        "Node.js not detected. DSH Desktop requires Node.js 22.19.0 or newer. Please install it and retry."@,
        "未检测到 Node.js。DSH Desktop 需要 Node.js 22.19.0 或更高版本，请安装后重试。"@,
    )
}

/// The message for a supported Node.js.
pub open spec fn node_ok_text(is_zh: bool, version: Seq<char>) -> Seq<char> {
    "Node.js v"@ + version + " "@ + pick(is_zh, "meets requirements"@, "满足要求"@)
}

/// The message for a Node.js that is too old (or whose version does not parse).
pub open spec fn node_old_text(is_zh: bool, version: Seq<char>) -> Seq<char> {
    pick(is_zh, "Detected Node.js"@, "检测到 Node.js"@) + " v"@ + version + ": "@ + pick(
        is_zh,
        "requires 22.19.0 or newer, please upgrade and retry"@,
        "需要 22.19.0 或更高版本，请升级后重试"@,
    )
}

/// The Node.js check from the output of `node --version` (none when the command failed):
/// installed when a version was found in it, supported when that version is at least
/// 22.19.0, with a message that says which.
pub fn node_check(is_zh: bool, captured: Option<String>) -> (r: NodeCheck)
    ensures
        r.installed == version_in_output(opt_view(captured)) is Some,
        match version_in_output(opt_view(captured)) {
            None => r.version@ == Seq::<char>::empty() && !r.supported && r.message@
                == node_missing_text(is_zh),
            Some(v) => r.version@ == v && r.supported == node_supported_spec(v) && r.message@ == (
            if node_supported_spec(v) {
                node_ok_text(is_zh, v)
            } else {
                node_old_text(is_zh, v)
            }),
        },
{
    let version = version_from_output(captured);
    match version {
        None => NodeCheck {
            installed: false,
            version: String::new(),
            supported: false,
            message: tr(
                is_zh,
                "Node.js not detected. DSH Desktop requires Node.js 22.19.0 or newer. Please install it and retry.",
                "未检测到 Node.js。DSH Desktop 需要 Node.js 22.19.0 或更高版本，请安装后重试。",
            ),
        },
        Some(v) => {
            let supported = node_supported(v.as_str());
            let message = if supported {
                let mut m = String::from_str("Node.js v");
                m.append(v.as_str());
                m.append(" ");
                let t = tr(is_zh, "meets requirements", "满足要求");
                m.append(t.as_str());
                m
            } else {
                let mut m = tr(is_zh, "Detected Node.js", "检测到 Node.js");
                m.append(" v");
                m.append(v.as_str());
                m.append(": ");
                let t = tr(
                    is_zh,
                    "requires 22.19.0 or newer, please upgrade and retry",
                    "需要 22.19.0 或更高版本，请升级后重试",
                );
                m.append(t.as_str());
                m
            };
            NodeCheck { installed: true, version: v, supported, message }
        },
    }
}

/// The result of making sure the global dsh CLI is installed.
pub struct DshInstallResult {
    pub installed: bool,
    pub version: String,
    pub message: String,
}

/// The result when dsh is already installed at `version`.
pub fn already_installed(is_zh: bool, version: String) -> (r: DshInstallResult)
    ensures
        r.installed,
        r.version@ == version@,
        r.message@ == pick(is_zh, "dsh is already installed"@, "dsh 已安装"@),
{
    DshInstallResult {
        installed: true,
        version,
        message: tr(is_zh, "dsh is already installed", "dsh 已安装"),
    }
}

/// The notice shown while dsh is installed.
pub fn installing_notice(is_zh: bool) -> (r: String)
    ensures
        r@ == pick(
            is_zh,
            "Installing @deepseek-ai/dsh (first install may take a few minutes)…"@,
            "正在安装 @deepseek-ai/dsh（首次安装可能需要几分钟）…"@,
        ),
{
    tr(
        is_zh,
        "Installing @deepseek-ai/dsh (first install may take a few minutes)…",
        "正在安装 @deepseek-ai/dsh（首次安装可能需要几分钟）…",
    )
}

/// The message when `npm install` failed.
pub open spec fn install_failed_text(is_zh: bool) -> Seq<char> {
    pick(
        is_zh,
        "Failed to install dsh: npm install command did not succeed. Check the CLI logs."@,
        "安装 dsh 失败: npm install 命令未成功，请检查 CLI 日志"@,
    )
}

/// The outcome of installing dsh with npm: an error when npm failed; otherwise installed,
/// at the version read afterwards (or `unknown`).
pub fn install_outcome(is_zh: bool, npm_ok: bool, version: Option<String>) -> (r: Result<
    DshInstallResult,
    String,
>)
    ensures
        r is Err <==> !npm_ok,
        r matches Err(e) ==> e@ == install_failed_text(is_zh),
        r matches Ok(res) ==> res.installed && res.version@ == or_unknown(opt_view(version))
            && res.message@ == pick(is_zh, "dsh installation complete"@, "dsh 安装完成"@),
{
    if !npm_ok {
        return Err(
            tr(
                is_zh,
                "Failed to install dsh: npm install command did not succeed. Check the CLI logs.",
                "安装 dsh 失败: npm install 命令未成功，请检查 CLI 日志",
            ),
        );
    }
    Ok(
        DshInstallResult {
            installed: true,
            version: version_or_unknown(version),
            message: tr(is_zh, "dsh installation complete", "dsh 安装完成"),
        },
    )
}

/// The result of upgrading dsh.
pub struct UpgradeResult {
    pub ok: bool,
    pub version: String,
    pub restarted: bool,
    pub message: String,
}

/// What became of the server after a successful upgrade.
pub enum RestartOutcome {
    /// The app runs no server; the new version takes effect on the next launch.
    NotOwned,
    /// The app's server was restarted with the new version.
    Restarted,
    /// Restarting failed, with this error.
    Failed(String),
}

/// Whether the server is restarted after an upgrade: only after npm succeeded, and only
/// when the app runs the server itself.
pub fn restart_after_upgrade(npm_ok: bool, owned: bool) -> (b: bool)
    ensures
        b == (npm_ok && owned),
{
    npm_ok && owned
}

/// ` (v<version>)`.
pub open spec fn version_note(v: Seq<char>) -> Seq<char> {
    " (v"@ + v + ")"@
}

/// The message of an upgrade.
pub open spec fn upgrade_text(is_zh: bool, npm_ok: bool, v: Seq<char>, restart: RestartOutcome) -> Seq<
    char,
> {
    if !npm_ok {
        pick(
            is_zh,
            "Upgrade failed: npm update command did not succeed. Check the CLI logs."@,
            "升级失败: npm update 命令未成功，请检查 CLI 日志"@,
        )
    } else {
        match restart {
            RestartOutcome::Restarted => pick(
                is_zh,
                "Upgrade complete, service restarted with the new version"@,
                "升级完成，服务已用新版本重启"@,
            ) + version_note(v),
            RestartOutcome::Failed(e) => pick(
                is_zh,
                "Upgrade complete but restart failed"@,
                "升级成功但重启失败"@,
            ) + version_note(v) + " - "@ + pick(is_zh, "please restart manually"@, "请手动点击重启"@)
                + ": "@ + e@,
            RestartOutcome::NotOwned => pick(
                is_zh,
                "Upgrade complete, no service running (effective on next launch)"@,
                "升级完成，当前无本应用运行的服务，下次启动即生效"@,
            ) + version_note(v),
        }
    }
}

/// Appends ` (v<version>)`.
fn append_version_note(m: &mut String, v: &str)
    ensures
        final(m)@ == old(m)@ + version_note(v@),
{
    m.append(" (v");
    m.append(v);
    m.append(")");
    assert(old(m)@ + " (v"@ + v@ + ")"@ =~= old(m)@ + version_note(v@));
}

/// The result of an upgrade: whether npm succeeded, the version read afterwards (or
/// `unknown`), whether the server was restarted, and a message saying so.
pub fn upgrade_outcome(
    is_zh: bool,
    npm_ok: bool,
    version: Option<String>,
    restart: RestartOutcome,
) -> (r: UpgradeResult)
    ensures
        r.ok == npm_ok,
        r.version@ == or_unknown(opt_view(version)),
        r.restarted == (npm_ok && restart is Restarted),
        r.message@ == upgrade_text(is_zh, npm_ok, or_unknown(opt_view(version)), restart),
{
    let version = version_or_unknown(version);
    if !npm_ok {
        return UpgradeResult {
            ok: false,
            version,
            restarted: false,
            message: tr(
                is_zh,
                "Upgrade failed: npm update command did not succeed. Check the CLI logs.",
                "升级失败: npm update 命令未成功，请检查 CLI 日志",
            ),
        };
    }
    match restart {
        RestartOutcome::Restarted => {
            let mut m = tr(
                is_zh,
                "Upgrade complete, service restarted with the new version",
                "升级完成，服务已用新版本重启",
            );
            append_version_note(&mut m, version.as_str());
            UpgradeResult { ok: true, version, restarted: true, message: m }
        },
        RestartOutcome::Failed(e) => {
            let mut m = tr(is_zh, "Upgrade complete but restart failed", "升级成功但重启失败");
            append_version_note(&mut m, version.as_str());
            m.append(" - ");
            let t = tr(is_zh, "please restart manually", "请手动点击重启");
            m.append(t.as_str());
            m.append(": ");
            m.append(e.as_str());
            UpgradeResult { ok: true, version, restarted: false, message: m }
        },
        RestartOutcome::NotOwned => {
            let mut m = tr(
                is_zh,
                "Upgrade complete, no service running (effective on next launch)",
                "升级完成，当前无本应用运行的服务，下次启动即生效",
            );
            append_version_note(&mut m, version.as_str());
            UpgradeResult { ok: true, version, restarted: false, message: m }
        },
    }
}

/// The operations whose failures the UI reports.
#[derive(PartialEq, Eq, Structural, Clone, Copy, Debug)]
pub enum Failure {
    OpenTerminal,
    LaunchCommand,
    ReadTerminal,
    WaitCommand,
    LaunchShell,
    WriteTerminal,
    ResizeTerminal,
    LaunchDshWeb,
    OpenBrowser,
    ReadProfile,
    ParseManifest,
}

/// What a failure is called in each language.
pub open spec fn failure_text(f: Failure, is_zh: bool) -> Seq<char> {
    match f {
        Failure::OpenTerminal => pick(is_zh, "Failed to open terminal"@, "打开终端失败"@),
        Failure::LaunchCommand => pick(is_zh, "Failed to launch command"@, "启动命令失败"@),
        Failure::ReadTerminal => pick(is_zh, "Failed to read terminal"@, "读取终端失败"@),
        Failure::WaitCommand => pick(is_zh, "Failed to wait for command"@, "等待命令结束失败"@),
        Failure::LaunchShell => pick(is_zh, "Failed to launch shell"@, "启动 shell 失败"@),
        Failure::WriteTerminal => pick(is_zh, "Failed to write to terminal"@, "写入终端失败"@),
        Failure::ResizeTerminal => pick(is_zh, "Failed to resize terminal"@, "调整终端大小失败"@),
        Failure::LaunchDshWeb => pick(is_zh, "Failed to launch dsh web"@, "无法启动 dsh web"@),
        Failure::OpenBrowser => pick(is_zh, "Failed to open browser"@, "无法打开浏览器"@),
        Failure::ReadProfile => pick(
            is_zh,
            "Failed to read profile config, please launch dsh once to initialize the profile"@,
            "读取 profile 配置失败，请先启动 dsh 一次以初始化 profile"@,
        ),
        Failure::ParseManifest => pick(is_zh, "Failed to parse package.json"@, "解析 package.json 失败"@),
    }
}

/// What a failure is called in the UI language.
pub fn failure_label(f: Failure, is_zh: bool) -> (r: String)
    ensures
        r@ == failure_text(f, is_zh),
{
    match f {
        Failure::OpenTerminal => tr(is_zh, "Failed to open terminal", "打开终端失败"),
        Failure::LaunchCommand => tr(is_zh, "Failed to launch command", "启动命令失败"),
        Failure::ReadTerminal => tr(is_zh, "Failed to read terminal", "读取终端失败"),
        Failure::WaitCommand => tr(is_zh, "Failed to wait for command", "等待命令结束失败"),
        Failure::LaunchShell => tr(is_zh, "Failed to launch shell", "启动 shell 失败"),
        Failure::WriteTerminal => tr(is_zh, "Failed to write to terminal", "写入终端失败"),
        Failure::ResizeTerminal => tr(is_zh, "Failed to resize terminal", "调整终端大小失败"),
        Failure::LaunchDshWeb => tr(is_zh, "Failed to launch dsh web", "无法启动 dsh web"),
        Failure::OpenBrowser => tr(is_zh, "Failed to open browser", "无法打开浏览器"),
        Failure::ReadProfile => tr(
            is_zh,
            "Failed to read profile config, please launch dsh once to initialize the profile",
            "读取 profile 配置失败，请先启动 dsh 一次以初始化 profile",
        ),
        Failure::ParseManifest => tr(is_zh, "Failed to parse package.json", "解析 package.json 失败"),
    }
}

/// `<failure>: <detail>`, the error the UI receives.
pub fn failure_message(f: Failure, is_zh: bool, detail: &str) -> (r: String)
    ensures
        r@ == failure_text(f, is_zh) + ": "@ + detail@,
{
    let mut m = failure_label(f, is_zh);
    m.append(": ");
    m.append(detail);
    m
}

/// `<failure>: <detail> (<path>)`, the error for a profile that cannot be read.
pub fn read_profile_failure(is_zh: bool, detail: &str, path: &str) -> (r: String)
    ensures
        r@ == failure_text(Failure::ReadProfile, is_zh) + ": "@ + detail@ + " ("@ + path@ + ")"@,
{
    let mut m = failure_message(Failure::ReadProfile, is_zh, detail);
    m.append(" (");
    m.append(path);
    m.append(")");
    m
}

} // verus!
