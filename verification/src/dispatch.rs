//! The dispatcher's decisions: destination filenames, download tasks, the
//! argument list for the external downloader, progress lines, and per-item
//! outcome reports.
//!
//! The application performs the external invocations; everything it needs
//! to decide — which file to write, which arguments to pass, what to print,
//! and that one item's failure never stops the rest — is computed here.

use vstd::prelude::*;
use crate::extract::byte_views;
use crate::extract::copy_range;
use crate::numfmt::dec_rep;
use crate::numfmt::u64_to_dec;

verus! {

/// Index of the last `/` in `u`, or -1 when there is none.
pub open spec fn last_slash(u: Seq<u8>) -> int
    decreases u.len(),
{
    if u.len() == 0 {
        -1
    } else if u.last() == ('/' as u8) {
        u.len() - 1
    } else {
        last_slash(u.drop_last())
    }
}

/// The fallback filename for a URL without `/`.
pub open spec fn unknown_name() -> Seq<u8> {
    seq![
        'u' as u8,
        'n' as u8,
        'k' as u8,
        'n' as u8,
        'o' as u8,
        'w' as u8,
        'n' as u8,
    ]
}

/// The destination filename of a URL: everything after the last `/`, or
/// `unknown` when the URL holds no `/` at all.
pub open spec fn filename_of(u: Seq<u8>) -> Seq<u8> {
    if last_slash(u) >= 0 {
        u.subrange(last_slash(u) + 1, u.len() as int)
    } else {
        unknown_name()
    }
}

/// `last_slash` is what its name says: the last slash, or absent.
pub proof fn lemma_last_slash(u: Seq<u8>)
    ensures
        last_slash(u) == -1 ==> forall|i: int| 0 <= i < u.len() ==> u[i] != ('/' as u8),
        last_slash(u) >= 0 ==> last_slash(u) < u.len() && u[last_slash(u)] == ('/' as u8)
            && (forall|i: int| last_slash(u) < i < u.len() ==> u[i] != ('/' as u8)),
    decreases u.len(),
{
    if u.len() == 0 {
    } else if u.last() == ('/' as u8) {
    } else {
        lemma_last_slash(u.drop_last());
        assert forall|i: int| 0 <= i < u.len() - 1 implies u[i] == u.drop_last()[i] by {}
    }
}

proof fn lemma_last_slash_pin(u: Seq<u8>, i: int)
    requires
        0 <= i < u.len(),
        u[i] == ('/' as u8),
        forall|q: int| i < q < u.len() ==> u[q] != ('/' as u8),
    ensures
        last_slash(u) == i,
    decreases u.len(),
{
    if i == u.len() - 1 {
    } else {
        assert(u.last() != ('/' as u8));
        assert(u.drop_last()[i] == ('/' as u8));
        lemma_last_slash_pin(u.drop_last(), i);
    }
}

proof fn lemma_last_slash_none(u: Seq<u8>)
    requires
        forall|q: int| 0 <= q < u.len() ==> u[q] != ('/' as u8),
    ensures
        last_slash(u) == -1,
    decreases u.len(),
{
    if u.len() == 0 {
    } else {
        lemma_last_slash_none(u.drop_last());
    }
}

/// Builds the fallback filename.
fn unknown_vec() -> (v: Vec<u8>)
    ensures
        v@ == unknown_name(),
{
    let mut v: Vec<u8> = Vec::new();
    v.push('u' as u8);
    v.push('n' as u8);
    v.push('k' as u8);
    v.push('n' as u8);
    v.push('o' as u8);
    v.push('w' as u8);
    v.push('n' as u8);
    proof {
        assert(v@ =~= unknown_name());
    }
    v
}

/// Derives the destination filename from a URL.
pub fn derive_filename(url: &[u8]) -> (name: Vec<u8>)
    ensures
        name@ == filename_of(url@),
{
    let n = url.len();
    let mut i = n;
    while i > 0
        invariant
            i <= n,
            n == url@.len(),
            forall|q: int| i <= q < n ==> url@[q] != ('/' as u8),
        decreases i,
    {
        i = i - 1;
        if url[i] == ('/' as u8) {
            proof {
                lemma_last_slash_pin(url@, i as int);
            }
            return copy_range(url, i + 1, n);
        }
    }
    proof {
        lemma_last_slash_none(url@);
    }
    unknown_vec()
}

/// Copies a byte vector.
pub fn clone_bytes(v: &Vec<u8>) -> (out: Vec<u8>)
    ensures
        out@ == v@,
{
    let mut out: Vec<u8> = Vec::new();
    let mut i: usize = 0;
    while i < v.len()
        invariant
            i <= v@.len(),
            out@.len() == i,
            forall|q: int| 0 <= q < i ==> out@[q] == v@[q],
        decreases v@.len() - i,
    {
        out.push(v[i]);
        i = i + 1;
    }
    proof {
        assert(out@ =~= v@);
    }
    out
}

/// Appends a slice to a vector.
pub fn append_slice(v: &mut Vec<u8>, s: &[u8])
    ensures
        final(v)@ == old(v)@ + s@,
{
    let mut i: usize = 0;
    while i < s.len()
        invariant
            i <= s@.len(),
            v@ == old(v)@ + s@.subrange(0, i as int),
        decreases s@.len() - i,
    {
        proof {
            assert(old(v)@ + s@.subrange(0, i as int + 1)
                =~= (old(v)@ + s@.subrange(0, i as int)).push(s@[i as int]));
        }
        v.push(s[i]);
        i = i + 1;
    }
    proof {
        assert(old(v)@ + s@.subrange(0, s@.len() as int) =~= old(v)@ + s@);
    }
}

/// One download to hand to the external downloader.
pub struct DownloadTask {
    pub url: Vec<u8>,
    pub filename: Vec<u8>,
    pub dir: Vec<u8>,
    pub proxy: Option<Vec<u8>>,
}

/// View of an optional byte vector.
pub open spec fn opt_view(o: Option<Vec<u8>>) -> Option<Seq<u8>> {
    match o {
        Option::Some(v) => Option::Some(v@),
        Option::None => Option::None,
    }
}

/// The proxy a download actually uses: the configured one only when the
/// apply-proxy flag is set.
pub open spec fn applied_proxy(proxy: Option<Seq<u8>>, use_proxy: bool) -> Option<Seq<u8>> {
    if use_proxy {
        proxy
    } else {
        Option::None
    }
}

/// `task` is the download task derived from `u` under the given settings.
pub open spec fn task_for(
    u: Seq<u8>,
    dir: Seq<u8>,
    proxy: Option<Seq<u8>>,
    use_proxy: bool,
    task: DownloadTask,
) -> bool {
    task.url@ == u && task.filename@ == filename_of(u) && task.dir@ == dir
        && opt_view(task.proxy) == applied_proxy(proxy, use_proxy)
}

/// Turns the extracted URLs into download tasks, one per URL, in order.
pub fn plan_downloads(
    urls: &Vec<Vec<u8>>,
    dir: &[u8],
    proxy: &Option<Vec<u8>>,
    use_proxy: bool,
) -> (tasks: Vec<DownloadTask>)
    ensures
        tasks@.len() == urls@.len(),
        forall|i: int| 0 <= i < tasks@.len()
            ==> task_for(urls@[i]@, dir@, opt_view(*proxy), use_proxy, tasks@[i]),
{
    let mut tasks: Vec<DownloadTask> = Vec::new();
    let mut i: usize = 0;
    while i < urls.len()
        invariant
            i <= urls@.len(),
            tasks@.len() == i,
            forall|q: int| 0 <= q < i
                ==> task_for(urls@[q]@, dir@, opt_view(*proxy), use_proxy, tasks@[q]),
        decreases urls@.len() - i,
    {
        let url = clone_bytes(&urls[i]);
        let filename = derive_filename(urls[i].as_slice());
        let dir_copy = copy_range(dir, 0, dir.len());
        proof {
            assert(dir_copy@ =~= dir@);
        }
        let task_proxy: Option<Vec<u8>> = match proxy {
            Option::Some(p) => if use_proxy {
                Option::Some(clone_bytes(p))
            } else {
                Option::None
            },
            Option::None => Option::None,
        };
        tasks.push(DownloadTask { url, filename, dir: dir_copy, proxy: task_proxy });
        i = i + 1;
    }
    tasks
}

/// `-o`
pub open spec fn output_flag() -> Seq<u8> {
    seq!['-' as u8, 'o' as u8]
}

/// `-d`
pub open spec fn dir_flag() -> Seq<u8> {
    seq!['-' as u8, 'd' as u8]
}

/// `--all-proxy`
pub open spec fn all_proxy_flag() -> Seq<u8> {
    seq![
        '-' as u8,
        '-' as u8,
        'a' as u8,
        'l' as u8,
        'l' as u8,
        '-' as u8,
        'p' as u8,
        'r' as u8,
        'o' as u8,
        'x' as u8,
        'y' as u8,
    ]
}

/// `aria2c`, the external downloader invoked once per URL.
pub open spec fn downloader_name() -> Seq<u8> {
    seq!['a' as u8, 'r' as u8, 'i' as u8, 'a' as u8, '2' as u8, 'c' as u8]
}

/// The argument list handed to the external downloader for one task: the
/// output filename, the output directory, the URL, and the proxy pair only
/// when the task carries a proxy.
pub open spec fn args_for(task: DownloadTask) -> Seq<Seq<u8>> {
    let base = seq![output_flag(), task.filename@, dir_flag(), task.dir@, task.url@];
    match task.proxy {
        Option::Some(p) => base + seq![all_proxy_flag(), p@],
        Option::None => base,
    }
}

/// The name of the external downloader executable.
pub fn downloader_program() -> (v: Vec<u8>)
    ensures
        v@ == downloader_name(),
{
    let mut v: Vec<u8> = Vec::new();
    v.push('a' as u8);
    v.push('r' as u8);
    v.push('i' as u8);
    v.push('a' as u8);
    v.push('2' as u8);
    v.push('c' as u8);
    proof {
        assert(v@ =~= downloader_name());
    }
    v
}

fn output_flag_vec() -> (v: Vec<u8>)
    ensures
        v@ == output_flag(),
{
    let mut v: Vec<u8> = Vec::new();
    v.push('-' as u8);
    v.push('o' as u8);
    proof {
        assert(v@ =~= output_flag());
    }
    v
}

fn dir_flag_vec() -> (v: Vec<u8>)
    ensures
        v@ == dir_flag(),
{
    let mut v: Vec<u8> = Vec::new();
    v.push('-' as u8);
    v.push('d' as u8);
    proof {
        assert(v@ =~= dir_flag());
    }
    v
}

fn all_proxy_flag_vec() -> (v: Vec<u8>)
    ensures
        v@ == all_proxy_flag(),
{
    let mut v: Vec<u8> = Vec::new();
    v.push('-' as u8);
    v.push('-' as u8);
    v.push('a' as u8);
    v.push('l' as u8);
    v.push('l' as u8);
    v.push('-' as u8);
    v.push('p' as u8);
    v.push('r' as u8);
    v.push('o' as u8);
    v.push('x' as u8);
    v.push('y' as u8);
    proof {
        assert(v@ =~= all_proxy_flag());
    }
    v
}

/// Builds the argument list for one task.
pub fn downloader_args(task: &DownloadTask) -> (args: Vec<Vec<u8>>)
    ensures
        byte_views(args@) == args_for(*task),
{
    let mut args: Vec<Vec<u8>> = Vec::new();
    args.push(output_flag_vec());
    args.push(clone_bytes(&task.filename));
    args.push(dir_flag_vec());
    args.push(clone_bytes(&task.dir));
    args.push(clone_bytes(&task.url));
    match &task.proxy {
        Option::Some(p) => {
            args.push(all_proxy_flag_vec());
            args.push(clone_bytes(p));
        },
        Option::None => {},
    }
    proof {
        assert(byte_views(args@) =~= args_for(*task));
    }
    args
}

/// `Downloading `
pub open spec fn progress_prefix() -> Seq<u8> {
    seq![
        'D' as u8,
        'o' as u8,
        'w' as u8,
        'n' as u8,
        'l' as u8,
        'o' as u8,
        'a' as u8,
        'd' as u8,
        'i' as u8,
        'n' as u8,
        'g' as u8,
        ' ' as u8,
    ]
}

/// ` file name: `
pub open spec fn progress_infix() -> Seq<u8> {
    seq![
        ' ' as u8,
        'f' as u8,
        'i' as u8,
        'l' as u8,
        'e' as u8,
        ' ' as u8,
        'n' as u8,
        'a' as u8,
        'm' as u8,
        'e' as u8,
        ':' as u8,
        ' ' as u8,
    ]
}

/// The progress line for item `i` of `total` (1-based):
/// `Downloading i/total file name: dir/name`.
pub open spec fn progress_line_spec(i: nat, total: nat, dir: Seq<u8>, name: Seq<u8>) -> Seq<u8> {
    progress_prefix() + dec_rep(i) + seq!['/' as u8] + dec_rep(total) + progress_infix() + dir
        + seq!['/' as u8] + name
}

fn progress_prefix_vec() -> (v: Vec<u8>)
    ensures
        v@ == progress_prefix(),
{
    let mut v: Vec<u8> = Vec::new();
    v.push('D' as u8);
    v.push('o' as u8);
    v.push('w' as u8);
    v.push('n' as u8);
    v.push('l' as u8);
    v.push('o' as u8);
    v.push('a' as u8);
    v.push('d' as u8);
    v.push('i' as u8);
    v.push('n' as u8);
    v.push('g' as u8);
    v.push(' ' as u8);
    proof {
        assert(v@ =~= progress_prefix());
    }
    v
}

fn progress_infix_vec() -> (v: Vec<u8>)
    ensures
        v@ == progress_infix(),
{
    let mut v: Vec<u8> = Vec::new();
    v.push(' ' as u8);
    v.push('f' as u8);
    v.push('i' as u8);
    v.push('l' as u8);
    v.push('e' as u8);
    v.push(' ' as u8);
    v.push('n' as u8);
    v.push('a' as u8);
    v.push('m' as u8);
    v.push('e' as u8);
    v.push(':' as u8);
    v.push(' ' as u8);
    proof {
        assert(v@ =~= progress_infix());
    }
    v
}

/// Renders the progress line for one item.
pub fn progress_line(i: u64, total: u64, dir: &[u8], name: &[u8]) -> (line: Vec<u8>)
    ensures
        line@ == progress_line_spec(i as nat, total as nat, dir@, name@),
{
    let mut line = progress_prefix_vec();
    let num = u64_to_dec(i);
    append_slice(&mut line, num.as_slice());
    line.push('/' as u8);
    let num2 = u64_to_dec(total);
    append_slice(&mut line, num2.as_slice());
    let infix = progress_infix_vec();
    append_slice(&mut line, infix.as_slice());
    append_slice(&mut line, dir);
    line.push('/' as u8);
    append_slice(&mut line, name);
    proof {
        assert(line@ =~= progress_line_spec(i as nat, total as nat, dir@, name@));
    }
    line
}

/// What one external download attempt came to, as the application saw it:
/// the process succeeded, reported failure, or could not be started.
#[derive(Clone, Copy, PartialEq, Eq, Debug)]
pub enum DownloadOutcome {
    Completed,
    Failed,
    CouldNotStart,
}

/// The reported result of one item.
pub struct ItemReport {
    pub url: Vec<u8>,
    pub outcome: DownloadOutcome,
}

/// Pairs every URL with its own outcome. Every item is reported: one item's
/// failure never drops or changes another item's report.
pub fn report_results(urls: &Vec<Vec<u8>>, outcomes: &Vec<DownloadOutcome>) -> (reports: Vec<
    ItemReport,
>)
    requires
        urls@.len() == outcomes@.len(),
    ensures
        reports@.len() == urls@.len(),
        forall|i: int| 0 <= i < reports@.len()
            ==> reports@[i].url@ == urls@[i]@ && reports@[i].outcome == outcomes@[i],
{
    let mut reports: Vec<ItemReport> = Vec::new();
    let mut i: usize = 0;
    while i < urls.len()
        invariant
            i <= urls@.len(),
            urls@.len() == outcomes@.len(),
            reports@.len() == i,
            forall|q: int| 0 <= q < i
                ==> reports@[q].url@ == urls@[q]@ && reports@[q].outcome == outcomes@[q],
        decreases urls@.len() - i,
    {
        let url = clone_bytes(&urls[i]);
        let outcome = outcomes[i];
        reports.push(ItemReport { url, outcome });
        i = i + 1;
    }
    reports
}

} // verus!
