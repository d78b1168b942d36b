use vstd::prelude::*;
use vstd::string::*;

use crate::date::{
    date_at, extract_date, find_date, first_date, first_date_at, has_date, lemma_first_date,
    without_first_date, DATE_PREFIX_LEN,
};
use crate::text::chars_of;

verus! {

/// Clock time given to every post: old posts carry a date but no time of day.
pub const TIME_OF_DAY: &'static str = "T22:40:32.169Z";

/// The run's settings as given on the command line.
pub struct Cli {
    pub no_folders: bool,
    pub pattern: String,
    pub results_dir: String,
    pub clean_dir: bool,
    pub keep_dates: bool,
    pub no_url_replace: bool,
    pub no_slug: bool,
}

/// The run's settings, shared read-only by every file of the batch.
pub struct Context {
    pub no_folders: bool,
    pub pattern: String,
    pub results_dir: String,
    pub clean_dir: bool,
    pub keep_dates: bool,
    pub no_url_replace: bool,
    pub no_slug: bool,
}

impl Context {
    pub fn from_cli(cli: Cli) -> (r: Context)
        ensures
            r.no_folders == cli.no_folders,
            r.pattern@ == cli.pattern@,
            r.results_dir@ == cli.results_dir@,
            r.clean_dir == cli.clean_dir,
            r.keep_dates == cli.keep_dates,
            r.no_url_replace == cli.no_url_replace,
            r.no_slug == cli.no_slug,
    {
        Context {
            no_folders: cli.no_folders,
            pattern: cli.pattern,
            results_dir: cli.results_dir,
            clean_dir: cli.clean_dir,
            keep_dates: cli.keep_dates,
            no_url_replace: cli.no_url_replace,
            no_slug: cli.no_slug,
        }
    }
}

/// Where a post goes and what its new header says.
pub struct FileDestinationResult {
    pub output_path: String,
    pub new_name: String,
    pub new_date: String,
    pub slug: String,
}

pub enum PlanError {
    /// The file name holds no `YYYY-MM-DD-`.
    NoDateFound(String),
}

impl PlanError {
    pub fn message(&self) -> (r: String)
        ensures
            match self {
                PlanError::NoDateFound(n) => r@ == "Couldn't find a date in file name "@ + n@,
            },
    {
        match self {
            PlanError::NoDateFound(n) => "Couldn't find a date in file name ".to_string().concat(
                n.as_str(),
            ),
        }
    }
}

/// `i` is the index of the first `.` of `s`.
pub open spec fn first_dot_at(s: Seq<char>, i: int) -> bool {
    &&& 0 <= i < s.len()
    &&& s[i] == '.'
    &&& forall|j: int| 0 <= j < i ==> s[j] != '.'
}

/// `s` without its extension: everything from the first `.` on is dropped.
pub open spec fn without_extension(s: Seq<char>) -> Seq<char> {
    if exists|i: int| first_dot_at(s, i) {
        s.take(choose|i: int| first_dot_at(s, i))
    } else {
        s
    }
}

/// `YYYY-MM-DD` of the leftmost date prefix, followed by the fixed time of day.
pub open spec fn timestamp_of(name: Seq<char>) -> Seq<char> {
    name.subrange(first_date(name), first_date(name) + 10) + TIME_OF_DAY@
}

/// The name without extension and without its leftmost date prefix.
pub open spec fn slug_of(name: Seq<char>) -> Seq<char> {
    without_first_date(without_extension(name))
}

/// The name the output is filed under: the slug, or the whole name without
/// extension when dates are kept.
pub open spec fn new_name_of(name: Seq<char>, keep_dates: bool) -> Seq<char> {
    if keep_dates {
        without_extension(name)
    } else {
        slug_of(name)
    }
}

/// `dir/new_name/index.md`, or `dir/new_name.md` without folders.
pub open spec fn output_path_of(dir: Seq<char>, new_name: Seq<char>, no_folders: bool) -> Seq<
    char,
> {
    if no_folders {
        dir + "/"@ + new_name + ".md"@
    } else {
        dir + "/"@ + new_name + "/index.md"@
    }
}

/// The plan for a file name that holds a date prefix.
pub open spec fn plan_matches(d: FileDestinationResult, name: Seq<char>, ctx: &Context) -> bool {
    &&& d.new_date@ == timestamp_of(name)
    &&& d.slug@ == slug_of(name)
    &&& d.new_name@ == new_name_of(name, ctx.keep_dates)
    &&& d.output_path@ == output_path_of(ctx.results_dir@, d.new_name@, ctx.no_folders)
}

/// A name that starts `YYYY-MM-DD-` gets those digits, as written, followed by
/// the fixed time of day as its timestamp; no calendar check is made.
pub proof fn lemma_timestamp_of_dated_name(name: Seq<char>)
    requires
        date_at(name, 0),
    ensures
        has_date(name),
        timestamp_of(name) == name.take(10) + TIME_OF_DAY@,
{
    assert(first_date_at(name, 0));
    lemma_first_date(name, 0);
    assert(name.subrange(0, 10) == name.take(10));
}

/// `name` without its extension.
pub fn strip_extension(name: &str) -> (r: String)
    ensures
        r@ == without_extension(name@),
{
    let v = chars_of(name);
    let mut i: usize = 0;
    while i < v.len()
        invariant
            i <= v.len(),
            v@ == name@,
            forall|j: int| 0 <= j < i ==> v@[j] != '.',
        decreases v.len() - i,
    {
        if v[i] == '.' {
            assert(first_dot_at(name@, i as int));
            let r = name.substring_char(0, i).to_string();
            proof {
                let k = choose|k: int| first_dot_at(name@, k);
                assert(first_dot_at(name@, k));
                if k < i {
                    assert(v@[k] != '.');
                } else if i < k {
                    assert(name@[i as int] == '.');
                }
                assert(name@.subrange(0, i as int) == name@.take(i as int));
            }
            return r;
        }
        i = i + 1;
    }
    assert(!exists|k: int| first_dot_at(name@, k));
    name.to_string()
}

/// `s` without its leftmost date prefix; unchanged when it has none.
pub fn strip_first_date(s: &str) -> (r: String)
    ensures
        r@ == without_first_date(s@),
{
    let v = chars_of(s);
    match find_date(&v) {
        None => s.to_string(),
        Some(i) => {
            proof {
                lemma_first_date(s@, i as int);
            }
            assert(i + DATE_PREFIX_LEN <= v.len());
            let head = s.substring_char(0, i).to_string();
            let r = head.concat(s.substring_char(i + DATE_PREFIX_LEN, v.len()));
            assert(s@.subrange(0, i as int) == s@.take(i as int));
            assert(s@.subrange(i + 11, s@.len() as int) == s@.skip(i + 11));
            r
        },
    }
}

/// Plans where the post `file_name` goes: its timestamp, slug, new name and
/// output path. Fails with `NoDateFound` when the name holds no date prefix.
/// The path depends on the name and the settings alone: two names that
/// reduce to the same new name share a path, and the later write wins.
pub fn setup_file_destination(file_name: String, ctx: &Context) -> (r: Result<
    FileDestinationResult,
    PlanError,
>)
    ensures
        r is Ok <==> has_date(file_name@),
        r matches Ok(d) ==> plan_matches(d, file_name@, ctx),
        r matches Err(e) ==> (e matches PlanError::NoDateFound(n) && n@ == file_name@),
{
    let date = extract_date(file_name.as_str());
    match date {
        None => Err(PlanError::NoDateFound(file_name)),
        Some(d) => {
            let new_date = d.year.concat("-").concat(d.month.as_str()).concat("-").concat(
                d.day.as_str(),
            ).concat(TIME_OF_DAY);
            proof {
                let n = file_name@;
                let i = first_date(n);
                reveal_strlit("-");
                assert(date_at(n, i));
                assert(n.subrange(i, i + 10) =~= n.subrange(i, i + 4) + "-"@ + n.subrange(
                    i + 5,
                    i + 7,
                ) + "-"@ + n.subrange(i + 8, i + 10));
            }
            let name_without_extension = strip_extension(file_name.as_str());
            let name_without_date = strip_first_date(name_without_extension.as_str());
            let new_name = if ctx.keep_dates {
                name_without_extension
            } else {
                name_without_date.clone()
            };
            let base = ctx.results_dir.clone().concat("/").concat(new_name.as_str());
            let output_path = if ctx.no_folders {
                base.concat(".md")
            } else {
                base.concat("/index.md")
            };
            Ok(FileDestinationResult { output_path, new_name, new_date, slug: name_without_date })
        },
    }
}

/// The folder that holds the post's `index.md`; none without folders.
pub fn folder_of(new_name: &str, ctx: &Context) -> (r: Option<String>)
    ensures
        ctx.no_folders <==> r is None,
        r matches Some(p) ==> p@ == ctx.results_dir@ + "/"@ + new_name@,
{
    if ctx.no_folders {
        None
    } else {
        Some(ctx.results_dir.clone().concat("/").concat(new_name))
    }
}

} // verus!
