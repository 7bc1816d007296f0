//! The external editors a working directory can be opened in, and how each
//! is pointed at a directory on an SSH host.

use vstd::prelude::*;
use crate::remote_hosts::strings_view;

verus! {

/// An external editor that can open a working directory.
#[derive(Debug, Clone, Copy, PartialEq, Eq, Hash, Structural)]
pub enum WorkingDirEditor {
    VsCode,
    Cursor,
    Windsurf,
    Antigravity,
    Zed,
}

impl Default for WorkingDirEditor {
    fn default() -> (r: Self)
        ensures
            r == WorkingDirEditor::VsCode,
    {
        WorkingDirEditor::VsCode
    }
}

/// How an editor is told to open a directory over SSH.
pub enum SshArgStyle {
    /// `--remote ssh-remote+HOST PATH`, as the VS Code family takes it.
    VsCodeRemote,
    /// A single `ssh://HOST/PATH` URL, as Zed takes it.
    ZedSshUrl,
}

pub open spec fn ssh_style(e: WorkingDirEditor) -> SshArgStyle {
    match e {
        WorkingDirEditor::Zed => SshArgStyle::ZedSshUrl,
        _ => SshArgStyle::VsCodeRemote,
    }
}

pub open spec fn display_name_spec(e: WorkingDirEditor) -> Seq<char> {
    match e {
        WorkingDirEditor::VsCode => "VS Code"@,
        WorkingDirEditor::Cursor => "Cursor"@,
        WorkingDirEditor::Windsurf => "Windsurf"@,
        WorkingDirEditor::Antigravity => "Antigravity"@,
        WorkingDirEditor::Zed => "Zed"@,
    }
}

pub open spec fn command_spec(e: WorkingDirEditor) -> Seq<char> {
    match e {
        WorkingDirEditor::VsCode => "code"@,
        WorkingDirEditor::Cursor => "cursor"@,
        WorkingDirEditor::Windsurf => "windsurf"@,
        WorkingDirEditor::Antigravity => "antigravity"@,
        WorkingDirEditor::Zed => "zed"@,
    }
}

/// `path` made absolute by a leading `/` when it has none.
pub open spec fn rooted(path: Seq<char>) -> Seq<char> {
    if path.len() > 0 && path[0] == '/' {
        path
    } else {
        seq!['/'] + path
    }
}

/// The arguments that make the editor open `path` on `ssh_host`.
pub open spec fn ssh_remote_args_spec(e: WorkingDirEditor, ssh_host: Seq<char>, path: Seq<char>) -> Seq<Seq<char>> {
    match ssh_style(e) {
        SshArgStyle::VsCodeRemote => seq!["--remote"@, "ssh-remote+"@ + ssh_host, path],
        SshArgStyle::ZedSshUrl => seq!["ssh://"@ + ssh_host + rooted(path)],
    }
}

impl WorkingDirEditor {
    fn ssh_arg_style(self) -> (r: SshArgStyle)
        ensures
            r == ssh_style(self),
    {
        match self {
            WorkingDirEditor::Zed => SshArgStyle::ZedSshUrl,
            _ => SshArgStyle::VsCodeRemote,
        }
    }

    /// The name shown for the editor.
    pub fn display_name(self) -> (r: &'static str)
        ensures
            r@ == display_name_spec(self),
    {
        match self {
            WorkingDirEditor::VsCode => "VS Code",
            WorkingDirEditor::Cursor => "Cursor",
            WorkingDirEditor::Windsurf => "Windsurf",
            WorkingDirEditor::Antigravity => "Antigravity",
            WorkingDirEditor::Zed => "Zed",
        }
    }

    /// The command that starts the editor.
    pub fn command(self) -> (r: &'static str)
        ensures
            r@ == command_spec(self),
    {
        match self {
            WorkingDirEditor::VsCode => "code",
            WorkingDirEditor::Cursor => "cursor",
            WorkingDirEditor::Windsurf => "windsurf",
            WorkingDirEditor::Antigravity => "antigravity",
            WorkingDirEditor::Zed => "zed",
        }
    }

    /// The editor's name as text, as its `Display` writes it.
    pub fn to_string(&self) -> (r: String)
        ensures
            r@ == display_name_spec(*self),
    {
        String::from_str(self.display_name())
    }

    /// The arguments that open `path` on `ssh_host`; see
    /// [`ssh_remote_args_spec`].
    pub fn ssh_remote_args(self, ssh_host: &str, path: &str) -> (r: Vec<String>)
        ensures
            strings_view(r@) == ssh_remote_args_spec(self, ssh_host@, path@),
    {
        match self.ssh_arg_style() {
            SshArgStyle::VsCodeRemote => {
                let mut target = String::from_str("ssh-remote+");
                target.append(ssh_host);
                let mut v: Vec<String> = Vec::new();
                v.push(String::from_str("--remote"));
                v.push(target);
                v.push(String::from_str(path));
                assert(strings_view(v@) =~= ssh_remote_args_spec(self, ssh_host@, path@));
                v
            },
            SshArgStyle::ZedSshUrl => {
                let mut url = String::from_str("ssh://");
                url.append(ssh_host);
                let starts_with_slash = path.unicode_len() > 0 && path.get_char(0) == '/';
                proof {
                    reveal_strlit("/");
                }
                if !starts_with_slash {
                    url.append("/");
                }
                url.append(path);
                assert(url@ =~= "ssh://"@ + ssh_host@ + rooted(path@));
                let mut v: Vec<String> = Vec::new();
                v.push(url);
                assert(strings_view(v@) =~= ssh_remote_args_spec(self, ssh_host@, path@));
                v
            },
        }
    }
}

} // verus!
