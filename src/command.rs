//! The argument lists of the two programs run for each partition: the splitter that
//! cuts the partition out of the wordlist, and the fuzzing engine fed with it.
use vstd::prelude::*;
use crate::number::{decimal, decimal_spec};
use crate::token::authorization_header;

verus! {

/// What the engine is pointed at.
pub enum Target {
    /// A file holding a saved request.
    Request(String),
    /// A URL.
    Url(String),
}

/// The engine's flag for a target.
pub open spec fn target_flag(t: &Target) -> Seq<char> {
    match t {
        Target::Request(_) => "-request"@,
        Target::Url(_) => "-u"@,
    }
}

/// The value given with a target's flag.
pub open spec fn target_value(t: &Target) -> Seq<char> {
    match t {
        Target::Request(v) => v@,
        Target::Url(v) => v@,
    }
}

/// Appends `s` to `args`.
fn push_string(args: &mut Vec<String>, s: String)
    ensures
        final(args).deep_view() == old(args).deep_view().push(s@),
{
    args.push(s);
    assert(final(args).deep_view() =~= old(args).deep_view().push(s@));
}

/// Appends a copy of `s` to `args`.
fn push_text(args: &mut Vec<String>, s: &str)
    ensures
        final(args).deep_view() == old(args).deep_view().push(s@),
{
    push_string(args, String::from_str(s));
}

/// Appends a copy of each of `more` to `args`, in order.
fn push_all(args: &mut Vec<String>, more: &Vec<String>)
    ensures
        final(args).deep_view() == old(args).deep_view() + more.deep_view(),
{
    let ghost start = args.deep_view();
    let mut i: usize = 0;
    while i < more.len()
        invariant
            i <= more@.len(),
            args.deep_view() =~= start + more.deep_view().take(i as int),
        decreases more@.len() - i,
    {
        push_string(args, more[i].clone());
        assert(more.deep_view().take(i + 1) =~= more.deep_view().take(i as int).push(more@[i as int]@));
        i = i + 1;
    }
    assert(more.deep_view().take(i as int) =~= more.deep_view());
}

/// The arguments that every engine run shares: the target, the request rate, CSV
/// output, then the caller's own arguments unchanged.
pub fn engine_args(target: &Target, rate: &str, extra: &Vec<String>) -> (r: Vec<String>)
    ensures
        r.deep_view() == seq![target_flag(target), target_value(target), "-rate"@, rate@, "-of"@, "csv"@]
            + extra.deep_view(),
{
    let mut r: Vec<String> = Vec::new();
    match target {
        Target::Request(v) => {
            push_text(&mut r, "-request");
            push_text(&mut r, v.as_str());
        },
        Target::Url(v) => {
            push_text(&mut r, "-u");
            push_text(&mut r, v.as_str());
        },
    }
    push_text(&mut r, "-rate");
    push_text(&mut r, rate);
    push_text(&mut r, "-of");
    push_text(&mut r, "csv");
    let ghost head = r.deep_view();
    assert(head =~= seq![target_flag(target), target_value(target), "-rate"@, rate@, "-of"@, "csv"@]);
    push_all(&mut r, extra);
    r
}

/// The arguments of one engine run: the authorization header when there is a token,
/// the shared arguments, reading the wordlist from standard input, then where the
/// results go.
pub fn run_args(token: Option<&str>, shared: &Vec<String>, output: &Vec<String>) -> (r: Vec<
    String,
>)
    ensures
        token is None ==> r.deep_view() == shared.deep_view() + seq!["-w"@, "-"@]
            + output.deep_view(),
        token is Some ==> r.deep_view() == seq!["-H"@, "Authorization: "@ + token->0@]
            + shared.deep_view() + seq!["-w"@, "-"@] + output.deep_view(),
{
    let mut r: Vec<String> = Vec::new();
    let ghost mut head: Seq<Seq<char>> = Seq::empty();
    match token {
        Some(t) => {
            push_text(&mut r, "-H");
            push_string(&mut r, authorization_header(t));
            proof {
                head = seq!["-H"@, "Authorization: "@ + t@];
            }
            assert(r.deep_view() =~= head);
        },
        None => {
            assert(r.deep_view() =~= head);
        },
    }
    push_all(&mut r, shared);
    push_text(&mut r, "-w");
    push_text(&mut r, "-");
    push_all(&mut r, output);
    assert(r.deep_view() =~= head + shared.deep_view() + seq!["-w"@, "-"@] + output.deep_view());
    r
}

/// The line-based slice `part` of `parts`, as the splitter names it.
pub open spec fn chunk_spec(part: nat, parts: nat) -> Seq<char> {
    "l/"@ + decimal_spec(part) + "/"@ + decimal_spec(parts)
}

/// The splitter's arguments for partition `part` of `parts` of the wordlist at
/// `wordlist`, counted from one.
pub fn split_args(part: u32, parts: u32, wordlist: &str) -> (r: Vec<String>)
    requires
        1 <= part <= parts,
    ensures
        r.deep_view() == seq!["-n"@, chunk_spec(part as nat, parts as nat), wordlist@],
{
    let mut chunk = String::from_str("l/");
    chunk.append(decimal(part).as_str());
    chunk.append("/");
    chunk.append(decimal(parts).as_str());
    let mut r: Vec<String> = Vec::new();
    push_text(&mut r, "-n");
    push_string(&mut r, chunk);
    push_text(&mut r, wordlist);
    assert(r.deep_view() =~= seq!["-n"@, chunk_spec(part as nat, parts as nat), wordlist@]);
    r
}

/// The engine's output arguments for a run: a file under `home` whose name carries
/// `stamp`, so that runs do not overwrite each other.
pub fn output_args(home: &str, stamp: &str) -> (r: Vec<String>)
    ensures
        r.deep_view() == seq!["-o"@, home@ + "/recon/results/jwt/_"@ + stamp@ + "_.txt"@],
{
    let mut path = String::from_str(home);
    path.append("/recon/results/jwt/_");
    path.append(stamp);
    path.append("_.txt");
    let mut r: Vec<String> = Vec::new();
    push_text(&mut r, "-o");
    push_string(&mut r, path);
    assert(r.deep_view() =~= seq!["-o"@, home@ + "/recon/results/jwt/_"@ + stamp@ + "_.txt"@]);
    r
}

/// The two programs run for one partition.
pub struct PartRun {
    /// The splitter's arguments: they cut the partition out of the wordlist.
    pub split: Vec<String>,
    /// The engine's arguments: it reads the partition from standard input.
    pub engine: Vec<String>,
}

/// What to run for partition `part` of `parts`, counted from one, given the token
/// fetched for it, if any.
pub fn plan_part(
    part: u32,
    parts: u32,
    wordlist: &str,
    token: Option<&str>,
    shared: &Vec<String>,
    output: &Vec<String>,
) -> (r: PartRun)
    requires
        1 <= part <= parts,
    ensures
        r.split.deep_view() == seq!["-n"@, chunk_spec(part as nat, parts as nat), wordlist@],
        token is None ==> r.engine.deep_view() == shared.deep_view() + seq!["-w"@, "-"@]
            + output.deep_view(),
        token is Some ==> r.engine.deep_view() == seq!["-H"@, "Authorization: "@ + token->0@]
            + shared.deep_view() + seq!["-w"@, "-"@] + output.deep_view(),
{
    PartRun { split: split_args(part, parts, wordlist), engine: run_args(token, shared, output) }
}

} // verus!
