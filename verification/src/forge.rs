//! The forge's command-line client, which knows the branch that a pull request
//! was opened from.

use vstd::prelude::*;
use vstd::string::*;

use crate::error;
use crate::error::{CoreError, ExitClass};
use crate::git;
use crate::json;
use crate::proc;
use crate::proc::{CommandRequest, ProcessOutput};
use crate::text;

verus! {

broadcast use vstd::string::group_string_axioms;

/// The exit status of `gh` for a missing or expired login.
pub const GH_AUTH_EXIT: i32 = 4;

/// Where a pull request was opened from.
#[derive(Debug)]
pub struct PullRequestHead {
    pub branch: String,
    pub cross_repository: bool,
    pub owner: Option<String>,
}

/// What is known of where a pull request was opened from.
pub struct Head {
    pub branch: Seq<char>,
    pub cross_repository: bool,
    pub owner: Option<Seq<char>>,
}

impl View for PullRequestHead {
    type V = Head;

    open spec fn view(&self) -> Head {
        Head {
            branch: self.branch@,
            cross_repository: self.cross_repository,
            owner: text::opt(self.owner),
        }
    }
}

/// What a document says of where a pull request was opened from: its branch must be
/// there and not blank.
pub open spec fn head_in(document: json::Doc) -> Option<Head> {
    match json::text_of(json::member(document, "headRefName"@)) {
        None => None,
        Some(name) => if text::trim(name).len() == 0 {
            None
        } else {
            Some(
                Head {
                    branch: text::trim(name),
                    cross_repository: match json::bool_of(
                        json::member(document, "isCrossRepository"@),
                    ) {
                        Some(b) => b,
                        None => false,
                    },
                    owner: json::text_of(
                        json::nested(document, "headRepositoryOwner"@, "login"@),
                    ),
                },
            )
        },
    }
}

/// Reads where a pull request was opened from out of a document.
pub fn head_of(document: &json::Json) -> (r: Option<PullRequestHead>)
    ensures
        match r {
            Some(h) => Some(h@),
            None => None,
        } == head_in(document@),
{
    let name = match document.get("headRefName") {
        None => return None,
        Some(member) => match member.as_text() {
            None => return None,
            Some(name) => name,
        },
    };
    let branch = text::trimmed(name.as_str());
    if branch.as_str().unicode_len() == 0 {
        return None;
    }
    let cross_repository = match document.get("isCrossRepository") {
        Some(member) => match member.as_bool() {
            Some(b) => b,
            None => false,
        },
        None => false,
    };
    let owner = match document.get("headRepositoryOwner") {
        Some(outer) => match outer.get("login") {
            Some(login) => match login.as_text() {
                Some(s) => Some(s.clone()),
                None => None,
            },
            None => None,
        },
        None => None,
    };
    Some(PullRequestHead { branch, cross_repository, owner })
}

/// Where a pull request was opened from, as the bytes that `gh` printed say it.
pub open spec fn head_said(stdout: Seq<u8>) -> Option<Head> {
    match json::json_document(stdout) {
        Some(document) => head_in(document),
        None => None,
    }
}

/// Reads where a pull request was opened from out of what `gh` printed.
pub fn parse_head(stdout: &[u8]) -> (r: Option<PullRequestHead>)
    ensures
        match r {
            Some(h) => Some(h@),
            None => None,
        } == head_said(stdout@),
{
    match json::parse(stdout) {
        Some(document) => head_of(&document),
        None => None,
    }
}

/// What to do instead of asking the forge.
pub open spec fn escape() -> Seq<char> {
    "pass `--from origin/<branch>` if you already know the pull request's branch"@
}

/// The error of a forge client that is not installed.
pub fn cli_missing(number: u64) -> (r: CoreError)
    ensures
        r@ == error::fault(
            ExitClass::External,
            "FORGE_CLI_MISSING"@,
            "pull request "@ + text::decimal(number as nat)
                + " needs the GitHub CLI to find its branch, and `gh` is not on PATH"@,
            "install gh (https://cli.github.com), run `gh auth login`, and retry; or "@ + escape(),
        ),
{
    let message = "pull request ".to_owned().concat(text::decimal_of(number).as_str()).concat(
        " needs the GitHub CLI to find its branch, and `gh` is not on PATH",
    );
    let remedy =
        "install gh (https://cli.github.com), run `gh auth login`, and retry; or ".to_owned().concat(
    "pass `--from origin/<branch>` if you already know the pull request's branch");
    CoreError::new(ExitClass::External, "FORGE_CLI_MISSING", message.as_str(), remedy.as_str())
}

/// The request that asks `gh` for the branch of a pull request.
pub fn head_request(repo: &str, number: u64) -> (r: CommandRequest)
    ensures
        r.program@ == "gh"@,
        text::texts(r.args@) == seq![
            "pr"@,
            "view"@,
            text::decimal(number as nat),
            "--json"@,
            "headRefName,isCrossRepository,headRepositoryOwner"@,
        ],
        text::opt(r.cwd) == Some(repo@),
        r.env.wf(),
        git::sets(r.env@, map!["GH_PROMPT_DISABLED"@ => "1"@, "GH_NO_UPDATE_NOTIFIER"@ => "1"@]),
        r.remove_env@.len() == 0,
        !r.clear_env,
{
    let mut request = CommandRequest::new("gh");
    let number = text::decimal_of(number);
    request.args = proc::Args::none().and("pr").and("view").and(number.as_str()).and("--json").and(
        "headRefName,isCrossRepository,headRepositoryOwner",
    ).list;
    request.cwd = Some(repo.to_owned());
    let mut env = request.env;
    env.put("GH_PROMPT_DISABLED", "1".to_owned());
    env.put("GH_NO_UPDATE_NOTIFIER", "1".to_owned());
    request.env = env;
    request
}

/// The first line that is not blank, without the white space around it.
pub open spec fn first_said(lines: Seq<Seq<char>>) -> Seq<char>
    decreases lines.len(),
{
    if lines.len() == 0 {
        "no error output"@
    } else if text::trim(lines[0]).len() > 0 {
        text::trim(lines[0])
    } else {
        first_said(lines.skip(1))
    }
}

fn first_line(said: &str) -> (r: String)
    ensures
        r@ == first_said(text::lines(said@)),
{
    let lines = text::lines_of(said);
    let ghost all = text::lines(said@);
    let mut i: usize = 0;
    proof {
        assert(all.skip(0) =~= all);
    }
    while i < lines.len()
        invariant
            i <= lines.len(),
            all == text::texts(lines@),
            all.len() == lines@.len(),
            all == text::lines(said@),
            first_said(all) == first_said(all.skip(i as int)),
        decreases lines.len() - i,
    {
        proof {
            assert(all.skip(i as int)[0] == lines@[i as int]@);
            assert(all.skip(i as int).skip(1) =~= all.skip(i + 1));
        }
        let line = text::trimmed(lines[i].as_str());
        if line.as_str().unicode_len() > 0 {
            return line;
        }
        i = i + 1;
    }
    "no error output".to_owned()
}

/// What is wrong with an answer of `gh`, or where the pull request was opened from.
pub open spec fn answered(repo: Seq<char>, number: nat, output: ProcessOutput, head: Option<Head>) -> Result<
    Head,
    error::Fault,
> {
    if output.timed_out {
        Err(
            error::fault(
                ExitClass::Timeout,
                "TIMEOUT"@,
                "gh timed out looking up pull request "@ + text::decimal(number),
                "retry the operation or raise git.timeouts.fetch"@,
            ),
        )
    } else if !output.succeeded() {
        Err(
            error::fault(
                ExitClass::External,
                "FORGE_CLI_FAILED"@,
                "gh could not look up pull request "@ + text::decimal(number) + ": "@ + first_said(
                    text::lines(text::utf8_lossy(output.stderr@)),
                ),
                if output.child.code == Some(GH_AUTH_EXIT) {
                    "run `gh auth login` and retry; or "@ + escape()
                } else {
                    "run `gh auth status` in "@ + repo
                        + " to check access to the repository, then retry; or "@ + escape()
                },
            ),
        )
    } else {
        match head {
            Some(h) => Ok(h),
            None => Err(
                error::fault(
                    ExitClass::External,
                    "FORGE_CLI_FAILED"@,
                    "gh answered for pull request "@ + text::decimal(number)
                        + " without a head branch"@,
                    "upgrade gh and retry; or "@ + escape(),
                ),
            ),
        }
    }
}

/// Judges an answer of `gh`, of which `head` was read.
pub fn judged(repo: &str, number: u64, output: &ProcessOutput, head: Option<PullRequestHead>) -> (r:
    Result<PullRequestHead, CoreError>)
    ensures
        match answered(
            repo@,
            number as nat,
            *output,
            match head {
                Some(h) => Some(h@),
                None => None,
            },
        ) {
            Ok(h) => r matches Ok(got) && got@ == h,
            Err(f) => r matches Err(e) && e@ == f,
        },
{
    let escape = "pass `--from origin/<branch>` if you already know the pull request's branch";
    let shown = text::decimal_of(number);
    if output.timed_out {
        let message = "gh timed out looking up pull request ".to_owned().concat(shown.as_str());
        return Err(
            CoreError::new(
                ExitClass::Timeout,
                "TIMEOUT",
                message.as_str(),
                "retry the operation or raise git.timeouts.fetch",
            ),
        );
    }
    if !output.success() {
        let said = text::lossy(output.stderr.as_slice());
        let reason = first_line(said.as_str());
        let login = match output.child.code {
            Some(code) => code == GH_AUTH_EXIT,
            None => false,
        };
        let remedy = if login {
            "run `gh auth login` and retry; or ".to_owned().concat(escape)
        } else {
            "run `gh auth status` in ".to_owned().concat(repo).concat(
                " to check access to the repository, then retry; or ",
            ).concat(escape)
        };
        let message = "gh could not look up pull request ".to_owned().concat(
            shown.as_str(),
        ).concat(": ").concat(reason.as_str());
        return Err(
            CoreError::new(
                ExitClass::External,
                "FORGE_CLI_FAILED",
                message.as_str(),
                remedy.as_str(),
            ),
        );
    }
    match head {
        Some(h) => Ok(h),
        None => {
            let message = "gh answered for pull request ".to_owned().concat(
                shown.as_str(),
            ).concat(" without a head branch");
            let remedy = "upgrade gh and retry; or ".to_owned().concat(escape);
            Err(
                CoreError::new(
                    ExitClass::External,
                    "FORGE_CLI_FAILED",
                    message.as_str(),
                    remedy.as_str(),
                ),
            )
        },
    }
}

/// Reads the answer of `gh` about a pull request.
pub fn github_pull_request_head(repo: &str, number: u64, output: &ProcessOutput) -> (r: Result<
    PullRequestHead,
    CoreError,
>)
    ensures
        match answered(repo@, number as nat, *output, head_said(output.stdout@)) {
            Ok(h) => r matches Ok(got) && got@ == h,
            Err(f) => r matches Err(e) && e@ == f,
        },
{
    let head = parse_head(output.stdout.as_slice());
    judged(repo, number, output, head)
}

/// A forge's answer is taken exactly where it came in time, went well and names a branch;
/// the error of anything else says which of these failed.
pub proof fn which_answer_is_taken(repo: Seq<char>, number: nat, output: ProcessOutput, head: Option<Head>)
    ensures
        answered(repo, number, output, head) is Ok <==> !output.timed_out && output.succeeded()
            && head is Some,
        answered(repo, number, output, head) matches Ok(h) ==> Some(h) == head,
        answered(repo, number, output, head) matches Err(e) ==> e.code == (if output.timed_out {
            "TIMEOUT"@
        } else {
            "FORGE_CLI_FAILED"@
        }),
{
}

/// A head is read exactly where its branch is named, whatever else is told; it is of
/// another repository only where that is said.
pub proof fn which_head_is_read(document: json::Doc)
    ensures
        ({
            let name = json::text_of(json::member(document, "headRefName"@));
            let crosses = json::bool_of(json::member(document, "isCrossRepository"@));
            &&& head_in(document) is Some <==> name is Some && text::trim(name->0).len() > 0
            &&& head_in(document) matches Some(h) ==> h.branch == text::trim(name->0)
                && h.cross_repository == (crosses is Some && crosses->0) && h.owner
                == json::text_of(json::nested(document, "headRepositoryOwner"@, "login"@))
        }),
{
}

/// What is told of an error is its first line that says anything.
pub proof fn the_first_line_that_says_anything(lines: Seq<Seq<char>>, i: int)
    requires
        0 <= i < lines.len(),
        text::trim(lines[i]).len() > 0,
        forall|k: int| 0 <= k < i ==> text::trim(#[trigger] lines[k]).len() == 0,
    ensures
        first_said(lines) == text::trim(lines[i]),
    decreases lines.len(),
{
    if i > 0 {
        let rest = lines.skip(1);
        assert(text::trim(lines[0]).len() == 0);
        assert(rest[i - 1] == lines[i]);
        assert forall|k: int| 0 <= k < i - 1 implies text::trim(#[trigger] rest[k]).len() == 0 by {
            assert(rest[k] == lines[k + 1]);
        }
        the_first_line_that_says_anything(rest, i - 1);
    }
}

} // verus!
