use vstd::prelude::*;
use vstd::string::*;

use crate::text::{opt_view, string_views};

verus! {

/// What `str::to_lowercase` makes of a string.
pub uninterp spec fn lower_of(s: Seq<char>) -> Seq<char>;

/// Relies on `str::to_lowercase`: the result depends on the characters alone.
#[verifier::external_body]
fn lowercase(s: &str) -> (r: String)
    ensures
        r@ == lower_of(s@),
{
    s.to_lowercase()
}

/// The canonical name of an architecture that is known by another name.
pub open spec fn arch_alias(a: Seq<char>) -> Seq<char> {
    if a == "win32"@ {
        "x86"@
    } else if a == "win64"@ {
        "x64"@
    } else if a == "x86_64"@ {
        "x64"@
    } else if a == "x86-64"@ {
        "x64"@
    } else {
        a
    }
}

/// Replaces a known alias of an architecture, already in lower case, by its
/// canonical name; any other name stays as it is.
pub fn resolve_arch_alias(lowered: String) -> (r: String)
    ensures
        r@ == arch_alias(lowered@),
{
    let aliases: Vec<(&str, &str)> = vec![
        ("win32", "x86"),
        ("win64", "x64"),
        ("x86_64", "x64"),
        ("x86-64", "x64"),
    ];
    let mut i: usize = 0;
    while i < aliases.len()
        invariant
            aliases@.len() == 4,
            aliases@[0].0@ == "win32"@ && aliases@[0].1@ == "x86"@,
            aliases@[1].0@ == "win64"@ && aliases@[1].1@ == "x64"@,
            aliases@[2].0@ == "x86_64"@ && aliases@[2].1@ == "x64"@,
            aliases@[3].0@ == "x86-64"@ && aliases@[3].1@ == "x64"@,
            0 <= i <= 4,
            forall|j: int| 0 <= j < i ==> lowered@ != (#[trigger] aliases@[j]).0@,
        decreases 4 - i,
    {
        let (from, to) = aliases[i];
        if lowered == String::from_str(from) {
            return String::from_str(to);
        }
        i += 1;
    }
    assert(lowered@ != aliases@[0].0@ && lowered@ != aliases@[1].0@ && lowered@ != aliases@[2].0@
        && lowered@ != aliases@[3].0@);
    lowered
}

/// The architecture to configure for: the name in lower case, with known
/// aliases replaced by their canonical names.
pub fn normalize_arch(arch: &str) -> (r: String)
    ensures
        r@ == arch_alias(lower_of(arch@)),
{
    resolve_arch_alias(lowercase(arch))
}

/// What the user asks the toolchain to be configured for.
pub struct ToolchainRequest {
    /// The target architecture, in any case, possibly by an alias.
    pub arch: String,
    /// The version of the platform SDK to use.
    pub sdk: Option<String>,
    /// Whether to link against the libraries with Spectre mitigations.
    pub spectre: bool,
    /// The version of the compiler toolset to use.
    pub toolset: Option<String>,
    /// Whether to build for the Universal Windows Platform.
    pub uwp: bool,
    /// The release, as a year or a version number.
    pub vsversion: Option<String>,
}

/// The arguments handed to the configuration script, in order.
pub open spec fn script_args_of(
    arch: Seq<char>,
    uwp: bool,
    sdk: Option<Seq<char>>,
    toolset: Option<Seq<char>>,
    spectre: bool,
) -> Seq<Seq<char>> {
    let a = seq![arch_alias(lower_of(arch))];
    let b = if uwp {
        a.push("uwp"@)
    } else {
        a
    };
    let c = match sdk {
        Some(s) => b.push(s),
        None => b,
    };
    let d = match toolset {
        Some(t) => c.push("-vcvars_ver="@ + t),
        None => c,
    };
    if spectre {
        d.push("-vcvars_spectre_libs=spectre"@)
    } else {
        d
    }
}

/// Each argument after a space.
pub open spec fn spaced(args: Seq<Seq<char>>) -> Seq<char>
    decreases args.len(),
{
    if args.len() == 0 {
        Seq::empty()
    } else {
        spaced(args.drop_last()) + " "@ + args.last()
    }
}

/// The command line that runs the script at `script`, quoted, with `args`.
pub open spec fn command_line(script: Seq<char>, args: Seq<Seq<char>>) -> Seq<char> {
    "\""@ + script + "\""@ + spaced(args)
}

/// One line for the host shell: dump the environment, run the command, dump
/// it again, with a page break (a form feed) between the stages.
pub open spec fn batch_line_of(command: Seq<char>) -> Seq<char> {
    "set && cls && "@ + command + " && cls && set"@
}

impl ToolchainRequest {
    /// The arguments for the configuration script: the architecture, then
    /// `uwp`, the SDK version, the toolset override and the Spectre flag, each
    /// where asked for.
    pub fn script_args(&self) -> (r: Vec<String>)
        ensures
            string_views(r@) == script_args_of(
                self.arch@,
                self.uwp,
                opt_view(self.sdk),
                opt_view(self.toolset),
                self.spectre,
            ),
    {
        let mut r: Vec<String> = Vec::new();
        r.push(normalize_arch(self.arch.as_str()));
        let ghost a = seq![arch_alias(lower_of(self.arch@))];
        assert(string_views(r@) =~= a);
        if self.uwp {
            r.push(String::from_str("uwp"));
        }
        let ghost b = if self.uwp {
            a.push("uwp"@)
        } else {
            a
        };
        assert(string_views(r@) =~= b);
        match &self.sdk {
            Some(s) => {
                r.push(s.clone());
            },
            None => {},
        }
        let ghost c = match opt_view(self.sdk) {
            Some(s) => b.push(s),
            None => b,
        };
        assert(string_views(r@) =~= c);
        match &self.toolset {
            Some(t) => {
                let mut v = String::from_str("-vcvars_ver=");
                v.append(t.as_str());
                r.push(v);
            },
            None => {},
        }
        let ghost d = match opt_view(self.toolset) {
            Some(t) => c.push("-vcvars_ver="@ + t),
            None => c,
        };
        assert(string_views(r@) =~= d);
        if self.spectre {
            r.push(String::from_str("-vcvars_spectre_libs=spectre"));
        }
        assert(string_views(r@) =~= script_args_of(
            self.arch@,
            self.uwp,
            opt_view(self.sdk),
            opt_view(self.toolset),
            self.spectre,
        ));
        r
    }

    /// The command line that runs the configuration script at `script`,
    /// quoted so that spaces in its path are safe, with this request's
    /// arguments.
    pub fn vcvars_command(&self, script: &String) -> (r: String)
        ensures
            r@ == command_line(
                script@,
                script_args_of(
                    self.arch@,
                    self.uwp,
                    opt_view(self.sdk),
                    opt_view(self.toolset),
                    self.spectre,
                ),
            ),
    {
        let args = self.script_args();
        let mut r = String::from_str("\"");
        r.append(script.as_str());
        r.append("\"");
        let ghost head = r@;
        let mut i: usize = 0;
        assert(string_views(args@).subrange(0, 0) =~= Seq::<Seq<char>>::empty());
        assert(head + spaced(Seq::empty()) =~= head);
        while i < args.len()
            invariant
                0 <= i <= args@.len(),
                r@ == head + spaced(string_views(args@).subrange(0, i as int)),
            decreases args@.len() - i,
        {
            let ghost sub = string_views(args@).subrange(0, i + 1);
            assert(sub.drop_last() =~= string_views(args@).subrange(0, i as int));
            assert(sub.last() == args@[i as int]@);
            r.append(" ");
            r.append(args[i].as_str());
            assert(r@ =~= head + spaced(sub));
            i += 1;
        }
        assert(string_views(args@).subrange(0, args@.len() as int) =~= string_views(args@));
        r
    }
}

/// The line for the host shell that captures the environment around one run
/// of `command`.
pub fn batch_line(command: &String) -> (r: String)
    ensures
        r@ == batch_line_of(command@),
{
    let mut r = String::from_str("set && cls && ");
    r.append(command.as_str());
    r.append(" && cls && set");
    r
}

/// The exit code that reports how the launched program ended: its own code
/// when it exited; else, where signals exist, 128 plus the signal's number
/// (9 when none is known); else 127.
pub fn exit_code(code: Option<i32>, signal: Option<i32>, has_signals: bool) -> (r: i32)
    requires
        match signal {
            Some(s) => s <= i32::MAX - 128,
            None => true,
        },
    ensures
        r == match code {
            Some(c) => c as int,
            None => if has_signals {
                128 + match signal {
                    Some(s) => s as int,
                    None => 9,
                }
            } else {
                127
            },
        },
{
    match code {
        Some(c) => c,
        None => {
            if has_signals {
                match signal {
                    Some(s) => s + 128,
                    None => 137,
                }
            } else {
                127
            }
        },
    }
}

} // verus!
