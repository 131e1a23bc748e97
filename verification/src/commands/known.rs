//! Commands that are described without looking: the shell's own, and some that
//! most machines have.
use vstd::prelude::*;
use vstd::utf8::*;
use crate::commands::options;
use crate::paths;
use crate::commands::catalog::CommandEntry;
use crate::commands::help::Described;
use crate::paths::has_bytes;
use crate::text::same_text;

verus! {

/// The description of a well-known command.
pub open spec fn known(name: Seq<char>) -> Option<Seq<char>> {
    if name == "ansible"@ {
        Some("Define and run automation tasks"@)
    } else if name == "appwrite"@ {
        Some("Manage Appwrite projects and services"@)
    } else if name == "arch"@ {
        Some("Print architecture type or run a universal binary"@)
    } else if name == "asr"@ {
        Some("Apple Software Restore; copy volumes and disk images"@)
    } else if name == "atlas"@ {
        Some("CLI tool to manage MongoDB Atlas"@)
    } else if name == "aws"@ {
        Some("Official command line interface for Amazon Web Services"@)
    } else if name == "aws-vault"@ {
        Some("Securely store and access AWS credentials"@)
    } else if name == "bash"@ {
        Some("GNU Bourne Again shell"@)
    } else if name == "brew"@ {
        Some("The missing package manager for macOS"@)
    } else if name == "cargo"@ {
        Some("Rust package manager and build tool"@)
    } else if name == "cmake"@ {
        Some("Configure, build, and test software projects"@)
    } else if name == "code"@ {
        Some("Open Visual Studio Code"@)
    } else if name == "curl"@ {
        Some("Transfer data from or to a server"@)
    } else if name == "docker"@ {
        Some("Build and run applications in containers"@)
    } else if name == "fd"@ {
        Some("Fast and user-friendly file finder"@)
    } else if name == "fzf"@ {
        Some("Command-line fuzzy finder"@)
    } else if name == "gh"@ {
        Some("GitHub command line interface"@)
    } else if name == "git"@ {
        Some("Distributed version control system"@)
    } else if name == "go"@ {
        Some("Build and manage Go source code"@)
    } else if name == "iris"@ {
        Some("Interactive shell assistant"@)
    } else if name == "jq"@ {
        Some("Process and transform JSON"@)
    } else if name == "kubectl"@ {
        Some("Control Kubernetes clusters"@)
    } else if name == "make"@ {
        Some("Maintain and build groups of programs"@)
    } else if name == "node"@ {
        Some("Run JavaScript with Node.js"@)
    } else if name == "npm"@ {
        Some("JavaScript package manager"@)
    } else if name == "nvim"@ {
        Some("Edit text with Neovim"@)
    } else if name == "pnpm"@ {
        Some("Fast, disk-efficient JavaScript package manager"@)
    } else if name == "python"@ {
        Some("Run the Python interpreter"@)
    } else if name == "python3"@ {
        Some("Run the Python interpreter"@)
    } else if name == "rg"@ {
        Some("Recursively search files with ripgrep"@)
    } else if name == "rustc"@ {
        Some("Compile Rust source code"@)
    } else if name == "ssh"@ {
        Some("OpenSSH remote login client"@)
    } else if name == "tmux"@ {
        Some("Terminal multiplexer"@)
    } else if name == "yarn"@ {
        Some("JavaScript package manager"@)
    } else if name == "zsh"@ {
        Some("Z shell command interpreter"@)
    } else {
        None
    }
}

/// The description of a well-known command.
pub fn known_description(name: &str) -> (r: Option<&'static str>)
    ensures
        match r {
            Some(d) => known(name@) == Some(d@),
            None => known(name@) is None,
        },
{
    if same_text(name, "ansible") {
        Some("Define and run automation tasks")
    } else if same_text(name, "appwrite") {
        Some("Manage Appwrite projects and services")
    } else if same_text(name, "arch") {
        Some("Print architecture type or run a universal binary")
    } else if same_text(name, "asr") {
        Some("Apple Software Restore; copy volumes and disk images")
    } else if same_text(name, "atlas") {
        Some("CLI tool to manage MongoDB Atlas")
    } else if same_text(name, "aws") {
        Some("Official command line interface for Amazon Web Services")
    } else if same_text(name, "aws-vault") {
        Some("Securely store and access AWS credentials")
    } else if same_text(name, "bash") {
        Some("GNU Bourne Again shell")
    } else if same_text(name, "brew") {
        Some("The missing package manager for macOS")
    } else if same_text(name, "cargo") {
        Some("Rust package manager and build tool")
    } else if same_text(name, "cmake") {
        Some("Configure, build, and test software projects")
    } else if same_text(name, "code") {
        Some("Open Visual Studio Code")
    } else if same_text(name, "curl") {
        Some("Transfer data from or to a server")
    } else if same_text(name, "docker") {
        Some("Build and run applications in containers")
    } else if same_text(name, "fd") {
        Some("Fast and user-friendly file finder")
    } else if same_text(name, "fzf") {
        Some("Command-line fuzzy finder")
    } else if same_text(name, "gh") {
        Some("GitHub command line interface")
    } else if same_text(name, "git") {
        Some("Distributed version control system")
    } else if same_text(name, "go") {
        Some("Build and manage Go source code")
    } else if same_text(name, "iris") {
        Some("Interactive shell assistant")
    } else if same_text(name, "jq") {
        Some("Process and transform JSON")
    } else if same_text(name, "kubectl") {
        Some("Control Kubernetes clusters")
    } else if same_text(name, "make") {
        Some("Maintain and build groups of programs")
    } else if same_text(name, "node") {
        Some("Run JavaScript with Node.js")
    } else if same_text(name, "npm") {
        Some("JavaScript package manager")
    } else if same_text(name, "nvim") {
        Some("Edit text with Neovim")
    } else if same_text(name, "pnpm") {
        Some("Fast, disk-efficient JavaScript package manager")
    } else if same_text(name, "python") {
        Some("Run the Python interpreter")
    } else if same_text(name, "python3") {
        Some("Run the Python interpreter")
    } else if same_text(name, "rg") {
        Some("Recursively search files with ripgrep")
    } else if same_text(name, "rustc") {
        Some("Compile Rust source code")
    } else if same_text(name, "ssh") {
        Some("OpenSSH remote login client")
    } else if same_text(name, "tmux") {
        Some("Terminal multiplexer")
    } else if same_text(name, "yarn") {
        Some("JavaScript package manager")
    } else if same_text(name, "zsh") {
        Some("Z shell command interpreter")
    } else {
        None
    }
}

/// What is said of an executable that nothing is known of: where it comes
/// from, as far as its path tells.
pub open spec fn fallback(path: Seq<u8>) -> Seq<char> {
    if paths::contains_bytes(path, encode_utf8("/.cargo/bin/"@)) {
        "Executable installed by Cargo"@
    } else if paths::contains_bytes(path, encode_utf8("/homebrew/"@)) || paths::contains_bytes(
        path,
        encode_utf8("/Cellar/"@),
    ) {
        "Homebrew command"@
    } else if paths::contains_bytes(path, encode_utf8("/.local/bin/"@)) || (paths::contains_bytes(
        path,
        encode_utf8("/bin/"@),
    ) && paths::contains_bytes(path, encode_utf8("/Users/"@))) {
        "User-installed command"@
    } else {
        "System command"@
    }
}

/// What is said of an executable that nothing is known of.
pub fn fallback_description(path: &[u8]) -> (r: &'static str)
    ensures
        r@ == fallback(path@),
{
    if has_bytes(path, "/.cargo/bin/".as_bytes()) {
        "Executable installed by Cargo"
    } else if has_bytes(path, "/homebrew/".as_bytes()) || has_bytes(path, "/Cellar/".as_bytes()) {
        "Homebrew command"
    } else if has_bytes(path, "/.local/bin/".as_bytes()) || (has_bytes(path, "/bin/".as_bytes())
        && has_bytes(path, "/Users/".as_bytes())) {
        "User-installed command"
    } else {
        "System command"
    }
}

/// The commands that the shell has itself.
pub open spec fn builtins() -> Seq<Described> {
    seq![
        Described {
            name: "alias"@,
            description: "Define or display shell aliases"@,
        },
        Described {
            name: "autoload"@,
            description: "Mark shell functions for automatic loading"@,
        },
        Described {
            name: "bg"@,
            description: "Resume jobs in the background"@,
        },
        Described {
            name: "cd"@,
            description: "Change the current working directory"@,
        },
        Described {
            name: "command"@,
            description: "Execute a command without shell function lookup"@,
        },
        Described {
            name: "export"@,
            description: "Set environment variables for child processes"@,
        },
        Described {
            name: "fg"@,
            description: "Bring jobs into the foreground"@,
        },
        Described {
            name: "jobs"@,
            description: "Display active shell jobs"@,
        },
        Described {
            name: "setopt"@,
            description: "Enable Zsh options"@,
        },
        Described {
            name: "source"@,
            description: "Execute commands from a file in the current shell"@,
        },
        Described {
            name: "typeset"@,
            description: "Declare shell variables and attributes"@,
        },
        Described {
            name: "unalias"@,
            description: "Remove shell alias definitions"@,
        },
        Described {
            name: "unset"@,
            description: "Remove shell variables or functions"@,
        },
        Described {
            name: "unsetopt"@,
            description: "Disable Zsh options"@,
        },
    ]
}

/// A text by its length and its first two characters.
spec fn led_by(s: Seq<char>, n: nat, a: char, b: char) -> bool {
    s.len() == n && s[0] == a && s[1] == b
}

/// No two of the shell's own commands share a name, and none is a well-known
/// command.
pub proof fn law_builtins()
    ensures
        options::distinct_names(builtins()),
        forall|i: int| 0 <= i < builtins().len() ==> known((#[trigger] builtins()[i]).name) is None,
{
    reveal_strlit("ansible");
    reveal_strlit("appwrite");
    reveal_strlit("arch");
    reveal_strlit("asr");
    reveal_strlit("atlas");
    reveal_strlit("aws");
    reveal_strlit("aws-vault");
    reveal_strlit("bash");
    reveal_strlit("brew");
    reveal_strlit("cargo");
    reveal_strlit("cmake");
    reveal_strlit("code");
    reveal_strlit("curl");
    reveal_strlit("docker");
    reveal_strlit("fd");
    reveal_strlit("fzf");
    reveal_strlit("gh");
    reveal_strlit("git");
    reveal_strlit("go");
    reveal_strlit("iris");
    reveal_strlit("jq");
    reveal_strlit("kubectl");
    reveal_strlit("make");
    reveal_strlit("node");
    reveal_strlit("npm");
    reveal_strlit("nvim");
    reveal_strlit("pnpm");
    reveal_strlit("python");
    reveal_strlit("python3");
    reveal_strlit("rg");
    reveal_strlit("rustc");
    reveal_strlit("ssh");
    reveal_strlit("tmux");
    reveal_strlit("yarn");
    reveal_strlit("zsh");
    reveal_strlit("alias");
    reveal_strlit("autoload");
    reveal_strlit("bg");
    reveal_strlit("cd");
    reveal_strlit("command");
    reveal_strlit("export");
    reveal_strlit("fg");
    reveal_strlit("jobs");
    reveal_strlit("setopt");
    reveal_strlit("source");
    reveal_strlit("typeset");
    reveal_strlit("unalias");
    reveal_strlit("unset");
    reveal_strlit("unsetopt");
    assert(led_by("ansible"@, 7, 'a', 'n'));
    assert(led_by("appwrite"@, 8, 'a', 'p'));
    assert(led_by("arch"@, 4, 'a', 'r'));
    assert(led_by("asr"@, 3, 'a', 's'));
    assert(led_by("atlas"@, 5, 'a', 't'));
    assert(led_by("aws"@, 3, 'a', 'w'));
    assert(led_by("aws-vault"@, 9, 'a', 'w'));
    assert(led_by("bash"@, 4, 'b', 'a'));
    assert(led_by("brew"@, 4, 'b', 'r'));
    assert(led_by("cargo"@, 5, 'c', 'a'));
    assert(led_by("cmake"@, 5, 'c', 'm'));
    assert(led_by("code"@, 4, 'c', 'o'));
    assert(led_by("curl"@, 4, 'c', 'u'));
    assert(led_by("docker"@, 6, 'd', 'o'));
    assert(led_by("fd"@, 2, 'f', 'd'));
    assert(led_by("fzf"@, 3, 'f', 'z'));
    assert(led_by("gh"@, 2, 'g', 'h'));
    assert(led_by("git"@, 3, 'g', 'i'));
    assert(led_by("go"@, 2, 'g', 'o'));
    assert(led_by("iris"@, 4, 'i', 'r'));
    assert(led_by("jq"@, 2, 'j', 'q'));
    assert(led_by("kubectl"@, 7, 'k', 'u'));
    assert(led_by("make"@, 4, 'm', 'a'));
    assert(led_by("node"@, 4, 'n', 'o'));
    assert(led_by("npm"@, 3, 'n', 'p'));
    assert(led_by("nvim"@, 4, 'n', 'v'));
    assert(led_by("pnpm"@, 4, 'p', 'n'));
    assert(led_by("python"@, 6, 'p', 'y'));
    assert(led_by("python3"@, 7, 'p', 'y'));
    assert(led_by("rg"@, 2, 'r', 'g'));
    assert(led_by("rustc"@, 5, 'r', 'u'));
    assert(led_by("ssh"@, 3, 's', 's'));
    assert(led_by("tmux"@, 4, 't', 'm'));
    assert(led_by("yarn"@, 4, 'y', 'a'));
    assert(led_by("zsh"@, 3, 'z', 's'));
    assert(led_by("alias"@, 5, 'a', 'l'));
    assert(led_by("autoload"@, 8, 'a', 'u'));
    assert(led_by("bg"@, 2, 'b', 'g'));
    assert(led_by("cd"@, 2, 'c', 'd'));
    assert(led_by("command"@, 7, 'c', 'o'));
    assert(led_by("export"@, 6, 'e', 'x'));
    assert(led_by("fg"@, 2, 'f', 'g'));
    assert(led_by("jobs"@, 4, 'j', 'o'));
    assert(led_by("setopt"@, 6, 's', 'e'));
    assert(led_by("source"@, 6, 's', 'o'));
    assert(led_by("typeset"@, 7, 't', 'y'));
    assert(led_by("unalias"@, 7, 'u', 'n'));
    assert(led_by("unset"@, 5, 'u', 'n'));
    assert(led_by("unsetopt"@, 8, 'u', 'n'));
}

fn push_entry(list: &mut Vec<CommandEntry>, name: &str, description: &str)
    ensures
        final(list).deep_view() == old(list).deep_view().push(
            Described { name: name@, description: description@ },
        ),
{
    let ghost before = list.deep_view();
    let entry = CommandEntry { name: name.to_string(), description: description.to_string() };
    list.push(entry);
    assert(list.deep_view() =~= before.push(entry.deep_view()));
}

/// The commands that the shell has itself.
pub fn shell_builtins() -> (r: Vec<CommandEntry>)
    ensures
        r.deep_view() == builtins(),
{
    let mut list: Vec<CommandEntry> = Vec::new();
    assert(list.deep_view() =~= Seq::<Described>::empty());
    push_entry(&mut list, "alias", "Define or display shell aliases");
    push_entry(&mut list, "autoload", "Mark shell functions for automatic loading");
    push_entry(&mut list, "bg", "Resume jobs in the background");
    push_entry(&mut list, "cd", "Change the current working directory");
    push_entry(&mut list, "command", "Execute a command without shell function lookup");
    push_entry(&mut list, "export", "Set environment variables for child processes");
    push_entry(&mut list, "fg", "Bring jobs into the foreground");
    push_entry(&mut list, "jobs", "Display active shell jobs");
    push_entry(&mut list, "setopt", "Enable Zsh options");
    push_entry(&mut list, "source", "Execute commands from a file in the current shell");
    push_entry(&mut list, "typeset", "Declare shell variables and attributes");
    push_entry(&mut list, "unalias", "Remove shell alias definitions");
    push_entry(&mut list, "unset", "Remove shell variables or functions");
    push_entry(&mut list, "unsetopt", "Disable Zsh options");
    assert(list.deep_view() =~= builtins());
    list
}

} // verus!
