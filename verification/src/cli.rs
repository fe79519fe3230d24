//! What the command line asks for.
use vstd::prelude::*;

use crate::error::NpxcError;
use crate::paths::host::HostPath;
use crate::text;

verus! {

/// A parsed command line.
#[derive(Debug)]
pub struct Cli {
    pub global: GlobalOpts,
    pub command: Commands,
}

/// Options that every command takes.
#[derive(Debug)]
pub struct GlobalOpts {
    /// Alternate config file.
    pub config: Option<HostPath>,
    /// Working directory in place of the process's own.
    pub cwd: Option<HostPath>,
    /// Disable path scoping.
    pub no_isolate: bool,
    /// Log level or filter.
    pub log_level: String,
    /// Print the plan and exit.
    pub dry_run: bool,
    /// Accepted and ignored.
    pub yes: bool,
}

/// The commands.
#[derive(Debug)]
pub enum Commands {
    /// Build the image of a package.
    Build { package_spec: String },
    /// Build the image of a package without cache.
    Rebuild { package_spec: String },
    /// List the package images.
    List,
    /// Remove the image of a package, or all of them.
    Clean { package_spec: Option<String>, all: bool },
    /// Print the resolved configuration of a package.
    Inspect { package_spec: String },
    /// Check prerequisites.
    Doctor,
    /// Run a package: its spec, then its arguments.
    Run(Vec<String>),
}

/// The arguments among `args[1..k]` that are not bare `--` separators.
pub open spec fn forwarded(args: Seq<Seq<char>>, k: nat) -> Seq<Seq<char>>
    decreases k,
{
    if k <= 1 {
        Seq::empty()
    } else if args[k - 1] == "--"@ {
        forwarded(args, (k - 1) as nat)
    } else {
        forwarded(args, (k - 1) as nat).push(args[k - 1])
    }
}

/// The package spec and the package's own arguments of a run: the first word, and
/// the others without bare `--` separators.
pub fn package_invocation(args: &Vec<String>) -> (r: (String, Vec<String>))
    requires
        args@.len() > 0,
    ensures
        r.0@ == args@[0]@,
        text::texts(r.1@) == forwarded(text::texts(args@), args@.len()),
{
    let ghost all = text::texts(args@);
    let spec = args[0].clone();
    let mut rest: Vec<String> = Vec::new();
    assert(text::texts(rest@) =~= forwarded(all, 1));
    let mut i: usize = 1;
    while i < args.len()
        invariant
            all == text::texts(args@),
            1 <= i <= args@.len(),
            text::texts(rest@) == forwarded(all, i as nat),
        decreases args@.len() - i,
    {
        assert(all[i as int] == args@[i as int]@);
        if !text::str_eq(args[i].as_str(), "--") {
            text::push_text(&mut rest, args[i].as_str());
        }
        i = i + 1;
    }
    (spec, rest)
}

/// What a clean command removes.
#[derive(Debug)]
pub enum CleanTarget {
    /// All package images.
    All,
    /// The image of this package.
    Package(String),
}

/// What a clean command removes: everything if asked to, else the package named.
pub fn clean_target(package_spec: &Option<String>, all: bool) -> (r: Result<CleanTarget, NpxcError>)
    ensures
        if all {
            r matches Ok(CleanTarget::All)
        } else {
            match text::opt(*package_spec) {
                Some(spec) => r matches Ok(CleanTarget::Package(s)) && s@ == spec,
                None => r matches Err(NpxcError::Config(m)) && m@
                    == "specify a package spec or pass --all to remove every cached image"@,
            }
        },
{
    if all {
        return Ok(CleanTarget::All);
    }
    match package_spec {
        Some(spec) => Ok(CleanTarget::Package(spec.clone())),
        None => Err(
            NpxcError::Config(
                "specify a package spec or pass --all to remove every cached image".to_owned(),
            ),
        ),
    }
}

/// No bare separator reaches the package.
pub proof fn separators_are_not_forwarded(args: Seq<Seq<char>>, k: nat)
    ensures
        !forwarded(args, k).contains("--"@),
    decreases k,
{
    if k > 1 {
        separators_are_not_forwarded(args, (k - 1) as nat);
        if args[k - 1] != "--"@ {
            let before = forwarded(args, (k - 1) as nat);
            let after = before.push(args[k - 1]);
            assert forall|i: int| 0 <= i < after.len() implies after[i] != "--"@ by {
                if i < before.len() {
                    assert(before[i] == after[i]);
                }
            }
        }
    }
}

/// Arguments without separators reach the package as they are, in order.
pub proof fn arguments_are_forwarded(args: Seq<Seq<char>>, k: nat)
    requires
        1 <= k <= args.len(),
        forall|i: int| 1 <= i < k ==> #[trigger] args[i] != "--"@,
    ensures
        forwarded(args, k) == args.subrange(1, k as int),
    decreases k,
{
    if k > 1 {
        arguments_are_forwarded(args, (k - 1) as nat);
        assert(args[k - 1] != "--"@);
        assert(args.subrange(1, k - 1).push(args[k - 1]) =~= args.subrange(1, k as int));
    } else {
        assert(args.subrange(1, 1) =~= Seq::<Seq<char>>::empty());
    }
}

/// A separator anywhere among the arguments makes no difference to the others.
pub proof fn separators_make_no_difference(args: Seq<Seq<char>>, at: int, k: nat)
    requires
        1 <= at <= args.len(),
        k <= args.len(),
    ensures
        forwarded(args.insert(at, "--"@), if k < at {
            k
        } else {
            k + 1
        }) == forwarded(args, k),
    decreases k,
{
    let more = args.insert(at, "--"@);
    if k > 1 {
        separators_make_no_difference(args, at, (k - 1) as nat);
        if k < at {
            assert(more[k - 1] == args[k - 1]);
        } else if k > at {
            assert(more[k as int] == args[k - 1]);
        } else {
            assert(more[k as int] == "--"@);
            assert(forwarded(more, k + 1) == forwarded(more, k));
            assert(more[k - 1] == args[k - 1]);
        }
    } else if k == at {
        assert(more[1] == "--"@);
        assert(forwarded(more, 2) == forwarded(more, 1));
    }
}

} // verus!
