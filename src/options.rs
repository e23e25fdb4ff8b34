use vstd::prelude::*;

verus! {

/// The parsed invocation of the tool.
#[derive(Clone, Debug)]
pub struct Options {
    pub arg_args: Vec<String>,
    pub version: bool,
    pub verbose: u32,
    pub quiet: bool,
    pub manifest_path: Option<String>,
    pub color: Option<String>,
    pub frozen: bool,
    pub locked: bool,
    pub yes: bool,
}

impl Default for Options {
    fn default() -> (r: Options)
        ensures
            r.arg_args@.len() == 0,
            !r.version,
            r.verbose == 0,
            !r.quiet,
            r.manifest_path.is_none(),
            r.color.is_none(),
            !r.frozen,
            !r.locked,
            !r.yes,
    {
        Options {
            arg_args: Vec::new(),
            version: false,
            verbose: 0,
            quiet: false,
            manifest_path: None,
            color: None,
            frozen: false,
            locked: false,
            yes: false,
        }
    }
}

/// The text of each string of a vector.
pub open spec fn texts(v: Seq<String>) -> Seq<Seq<char>> {
    v.map_values(|s: String| s@)
}

/// A flag that is present exactly when `on` holds.
pub open spec fn flag_if(on: bool, flag: Seq<char>) -> Seq<Seq<char>> {
    if on {
        seq![flag]
    } else {
        Seq::empty()
    }
}

/// A flag followed by its value, when the value is present.
pub open spec fn valued_flag(flag: Seq<char>, value: Option<String>) -> Seq<Seq<char>> {
    match value {
        Some(v) => seq![flag, v@],
        None => Seq::empty(),
    }
}

/// The argument vector that every child build receives after `check`:
/// the residual arguments, one `--verbose` per unit of verbosity, then the
/// quiet, manifest-path, color, frozen and locked flags, and finally
/// `--no-default-features`.
pub open spec fn flag_args(o: Options) -> Seq<Seq<char>> {
    texts(o.arg_args@)
        + Seq::new(o.verbose as nat, |i: int| "--verbose"@)
        + flag_if(o.quiet, "--quiet"@)
        + valued_flag("--manifest-path"@, o.manifest_path)
        + valued_flag("--color"@, o.color)
        + flag_if(o.frozen, "--frozen"@)
        + flag_if(o.locked, "--locked"@)
        + seq!["--no-default-features"@]
}

fn push_text(v: &mut Vec<String>, s: &str)
    ensures
        texts(final(v)@) == texts(old(v)@).push(s@),
{
    v.push(s.to_owned());
    assert(texts(final(v)@) =~= texts(old(v)@).push(s@));
}

/// Translates the invocation's options into the flags handed to each child build.
pub fn base_args(options: Options) -> (r: Vec<String>)
    ensures
        texts(r@) == flag_args(options),
{
    let ghost o = options;
    let mut base_args = options.arg_args;
    let mut i: u32 = 0;
    while i < options.verbose
        invariant
            i <= o.verbose,
            options.verbose == o.verbose,
            texts(base_args@) == texts(o.arg_args@) + Seq::new(i as nat, |j: int| "--verbose"@),
        decreases o.verbose - i,
    {
        push_text(&mut base_args, "--verbose");
        i = i + 1;
        assert(texts(base_args@) =~= texts(o.arg_args@) + Seq::new(i as nat, |j: int| "--verbose"@));
    }
    let ghost after_verbose = texts(base_args@);
    if options.quiet {
        push_text(&mut base_args, "--quiet");
    }
    assert(texts(base_args@) =~= after_verbose + flag_if(o.quiet, "--quiet"@));
    let ghost after_quiet = texts(base_args@);
    if let Some(manifest_path) = &options.manifest_path {
        push_text(&mut base_args, "--manifest-path");
        push_text(&mut base_args, manifest_path.as_str());
    }
    assert(texts(base_args@) =~= after_quiet + valued_flag("--manifest-path"@, o.manifest_path));
    let ghost after_manifest = texts(base_args@);
    if let Some(color) = &options.color {
        push_text(&mut base_args, "--color");
        push_text(&mut base_args, color.as_str());
    }
    assert(texts(base_args@) =~= after_manifest + valued_flag("--color"@, o.color));
    let ghost after_color = texts(base_args@);
    if options.frozen {
        push_text(&mut base_args, "--frozen");
    }
    assert(texts(base_args@) =~= after_color + flag_if(o.frozen, "--frozen"@));
    let ghost after_frozen = texts(base_args@);
    if options.locked {
        push_text(&mut base_args, "--locked");
    }
    assert(texts(base_args@) =~= after_frozen + flag_if(o.locked, "--locked"@));
    let ghost after_locked = texts(base_args@);
    push_text(&mut base_args, "--no-default-features");
    assert(texts(base_args@) =~= after_locked + seq!["--no-default-features"@]);
    base_args
}

} // verus!
