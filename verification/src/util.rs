//! Command-line flag lookup, GitHub repository URLs, the saved update
//! progress and the incremental-scan date.
use vstd::prelude::*;

use chrono::Datelike;

use crate::plugin::Plugin;
use crate::text::{
    chars_of, concat_chars, contains_str, has_char, lemma_split_char_nonempty, slice_chars, split_char,
    split_char_exec, str_eq, string_from_chars, strip_prefix, strip_prefix_exec, trim_end_char,
    trim_end_char_exec,
};

verus! {

/// `flag` occurs among `args`.
pub open spec fn flag_present(args: Seq<String>, flag: Seq<char>) -> bool {
    exists|i: int| 0 <= i < args.len() && args[i]@ == flag
}

/// Index `i` holds `flag` and is followed by a value.
pub open spec fn flag_with_value_at(args: Seq<String>, flag: Seq<char>, i: int) -> bool {
    0 <= i && i + 1 < args.len() && args[i]@ == flag
}

/// Whether `flag` is one of the arguments.
pub fn has_flag(args: &[String], flag: &str) -> (res: bool)
    ensures
        res == flag_present(args@, flag@),
{
    let mut i: usize = 0;
    while i < args.len()
        invariant
            i <= args@.len(),
            forall|k: int| 0 <= k < i ==> args@[k]@ != flag@,
        decreases args@.len() - i,
    {
        if str_eq(args[i].as_str(), flag) {
            return true;
        }
        i = i + 1;
    }
    false
}

/// The argument that follows the first occurrence of `flag` that has one.
pub fn get_arg(args: &[String], flag: &str) -> (res: Option<String>)
    ensures
        res matches Some(v) ==> exists|i: int|
            flag_with_value_at(args@, flag@, i) && v@ == args@[i + 1]@ && forall|j: int|
                0 <= j < i ==> !flag_with_value_at(args@, flag@, j),
        res is None ==> forall|i: int| !flag_with_value_at(args@, flag@, i),
{
    let mut i: usize = 0;
    while i < args.len()
        invariant
            i <= args@.len(),
            forall|k: int| 0 <= k < i ==> !flag_with_value_at(args@, flag@, k),
        decreases args@.len() - i,
    {
        if str_eq(args[i].as_str(), flag) && i + 1 < args.len() {
            let v = args[i + 1].clone();
            assert(flag_with_value_at(args@, flag@, i as int));
            return Some(v);
        }
        i = i + 1;
    }
    assert forall|k: int| !flag_with_value_at(args@, flag@, k) by {
        if 0 <= k < i {
        }
    }
    None
}

/// The owner and repository named by a `https://github.com/<owner>/<repo>[/...]` URL,
/// trailing slashes ignored.
pub open spec fn github_owner_repo(url: Seq<char>) -> Option<(Seq<char>, Seq<char>)> {
    match strip_prefix(trim_end_char(url, '/'), "https://github.com/"@) {
        Some(rest) => {
            let parts = split_char(rest, '/');
            if parts.len() >= 2 {
                Some((parts[0], parts[1]))
            } else {
                None
            }
        },
        None => None,
    }
}

/// The owner and repository of a GitHub URL, as two character vectors.
pub fn github_owner_repo_exec(url: &str) -> (res: Option<(Vec<char>, Vec<char>)>)
    ensures
        res matches Some(p) ==> github_owner_repo(url@) == Some((p.0@, p.1@)),
        res is None ==> github_owner_repo(url@) is None,
{
    let chars = chars_of(url);
    let trimmed = trim_end_char_exec(&chars, '/');
    let prefix = chars_of("https://github.com/");
    match strip_prefix_exec(&trimmed, &prefix) {
        Some(rest) => {
            let parts = split_char_exec(&rest, '/');
            if parts.len() >= 2 {
                let owner = slice_chars(&parts[0], 0, parts[0].len());
                let repo = slice_chars(&parts[1], 0, parts[1].len());
                assert(parts.deep_view()[0] == parts@[0]@);
                assert(parts.deep_view()[1] == parts@[1]@);
                Some((owner, repo))
            } else {
                None
            }
        },
        None => None,
    }
}

/// `owner/repo` for a GitHub repository URL.
pub open spec fn repo_full_name(url: Seq<char>) -> Option<Seq<char>> {
    match github_owner_repo(url) {
        Some((owner, repo)) => Some(owner + seq!['/'] + repo),
        None => None,
    }
}

/// The `owner/repo` full name of a repository given by its GitHub URL.
pub fn extract_repo_full_name(url: &str) -> (res: Option<String>)
    ensures
        res matches Some(s) ==> repo_full_name(url@) == Some(s@),
        res is None ==> repo_full_name(url@) is None,
{
    match github_owner_repo_exec(url) {
        Some((owner, repo)) => {
            let mut v = owner;
            v.push('/');
            let w = concat_chars(&v, &repo);
            Some(string_from_chars(&w))
        },
        None => None,
    }
}

/// When `get_arg` finds a value for a flag, `has_flag` finds the flag.
pub proof fn lemma_value_implies_flag(args: Seq<String>, flag: Seq<char>, i: int)
    requires
        flag_with_value_at(args, flag, i),
    ensures
        flag_present(args, flag),
{
}

/// The full name of a repository URL is its owner and name, as `parse_github_url` gives
/// them, joined by `/`; the two find a repository on the same URLs.
pub proof fn lemma_full_name_is_owner_slash_repo(url: Seq<char>)
    ensures
        repo_full_name(url) is Some <==> github_owner_repo(url) is Some,
        github_owner_repo(url) matches Some((o, r)) ==> repo_full_name(url) == Some(o + seq!['/'] + r),
{
}

/// The (year, month, day) that `chrono::NaiveDate::parse_from_str(s, "%Y-%m-%d")` reads.
pub uninterp spec fn ymd_parsed(s: Seq<char>) -> Option<(i32, u32, u32)>;

/// The (year, month, day) `days` days before a date, by chrono's
/// `NaiveDate::checked_sub_signed`; `None` for an invalid date or a result out of range.
pub uninterp spec fn ymd_days_before(year: i32, month: u32, day: u32, days: i64) -> Option<
    (i32, u32, u32),
>;

/// A date written by chrono as `%Y-%m-%d`; `None` for an invalid date.
pub uninterp spec fn ymd_text(year: i32, month: u32, day: u32) -> Option<Seq<char>>;

/// Parses a `YYYY-MM-DD` date with chrono. The contract claims only that the result is a
/// function of the text, named [`ymd_parsed`].
#[verifier::external_body]
fn parse_ymd(s: &str) -> (res: Option<(i32, u32, u32)>)
    ensures
        res == ymd_parsed(s@),
{
    chrono::NaiveDate::parse_from_str(s, "%Y-%m-%d").ok().map(|d| (d.year(), d.month(), d.day()))
}

/// Goes back `days` days from a date with chrono (`checked_sub_signed`, so no overflow
/// panic). The contract claims only that the result is a function of the arguments,
/// named [`ymd_days_before`].
#[verifier::external_body]
fn days_before(year: i32, month: u32, day: u32, days: i64) -> (res: Option<(i32, u32, u32)>)
    requires
        0 <= days <= 36500,
    ensures
        res == ymd_days_before(year, month, day, days),
{
    chrono::NaiveDate::from_ymd_opt(year, month, day)?.checked_sub_signed(
        chrono::Duration::days(days),
    ).map(|d| (d.year(), d.month(), d.day()))
}

/// Writes a date as `%Y-%m-%d` with chrono. The contract claims only that the result is a
/// function of the date, named [`ymd_text`].
#[verifier::external_body]
fn format_ymd(year: i32, month: u32, day: u32) -> (res: Option<String>)
    ensures
        res matches Some(s) ==> ymd_text(year, month, day) == Some(s@),
        res is None ==> ymd_text(year, month, day) is None,
{
    chrono::NaiveDate::from_ymd_opt(year, month, day).map(|d| d.format("%Y-%m-%d").to_string())
}

/// The date an incremental scan starts from: a week before the saved date.
pub open spec fn buffered_date(saved: Seq<char>) -> Option<Seq<char>> {
    match ymd_parsed(saved) {
        Some((y, m, d)) => match ymd_days_before(y, m, d, 7) {
            Some((y2, m2, d2)) => ymd_text(y2, m2, d2),
            None => None,
        },
        None => None,
    }
}

/// The start date of an incremental scan: the saved `YYYY-MM-DD` date moved a week back,
/// so that repositories pushed around the last run are not missed; `None` when the saved
/// text is not a date (or the date cannot be moved back).
pub fn buffered_sync_date(saved: &str) -> (res: Option<String>)
    ensures
        res matches Some(s) ==> buffered_date(saved@) == Some(s@),
        res is None ==> buffered_date(saved@) is None,
{
    match parse_ymd(saved) {
        Some((y, m, d)) => match days_before(y, m, d, 7) {
            Some((y2, m2, d2)) => format_ymd(y2, m2, d2),
            None => None,
        },
        None => None,
    }
}

/// The lines of a text, as `str::lines` gives them: split at `\n`, a final empty piece
/// (after a trailing `\n`, or of an empty text) dropped, and one `\r` removed from the
/// end of each line.
pub open spec fn text_lines(s: Seq<char>) -> Seq<Seq<char>> {
    let pieces = split_char(s, '\n');
    let kept = if pieces.last().len() == 0 {
        pieces.drop_last()
    } else {
        pieces
    };
    kept.map_values(|l: Seq<char>| strip_cr(l))
}

/// A line without its one trailing `\r`, if it has one.
pub open spec fn strip_cr(l: Seq<char>) -> Seq<char> {
    if l.len() > 0 && l.last() == '\r' {
        l.drop_last()
    } else {
        l
    }
}

/// The ids held by a saved update-progress text: one per line.
pub fn parse_processed_ids(content: &str) -> (res: Vec<String>)
    ensures
        res.deep_view() == text_lines(content@),
{
    let chars = chars_of(content);
    let pieces = split_char_exec(&chars, '\n');
    proof {
        lemma_split_char_nonempty(chars@, '\n');
    }
    let n = pieces.len();
    let count = if pieces[n - 1].len() == 0 {
        n - 1
    } else {
        n
    };
    let ghost kept = if pieces.deep_view().last().len() == 0 {
        pieces.deep_view().drop_last()
    } else {
        pieces.deep_view()
    };
    assert(kept.len() == count);
    let mut out: Vec<String> = Vec::new();
    let mut i: usize = 0;
    while i < count
        invariant
            count <= pieces@.len(),
            kept.len() == count,
            forall|k: int| 0 <= k < count ==> kept[k] == pieces.deep_view()[k],
            pieces.deep_view().len() == pieces@.len(),
            i <= count,
            out.deep_view() == kept.take(i as int).map_values(|l: Seq<char>| strip_cr(l)),
        decreases count - i,
    {
        let line = &pieces[i];
        assert(pieces.deep_view()[i as int] == line@);
        let len = line.len();
        let s = if len > 0 && line[len - 1] == '\r' {
            let t = slice_chars(line, 0, len - 1);
            assert(t@ =~= line@.drop_last());
            string_from_chars(&t)
        } else {
            string_from_chars(line)
        };
        let ghost before = out.deep_view();
        out.push(s);
        assert(out.deep_view() =~= kept.take(i + 1).map_values(|l: Seq<char>| strip_cr(l))) by {
            assert(out.deep_view() =~= before.push(s@));
        }
        i = i + 1;
    }
    assert(kept.take(count as int) =~= kept);
    out
}

/// The ids joined by `\n`.
pub open spec fn joined_lines(ids: Seq<Seq<char>>) -> Seq<char>
    decreases ids.len(),
{
    if ids.len() == 0 {
        Seq::<char>::empty()
    } else if ids.len() == 1 {
        ids[0]
    } else {
        joined_lines(ids.drop_last()) + seq!['\n'] + ids.last()
    }
}

/// The update-progress text for a list of ids: the ids joined by newlines.
pub fn format_processed_ids(ids: &[String]) -> (res: String)
    ensures
        res@ == joined_lines(ids.deep_view()),
{
    let mut out: Vec<char> = Vec::new();
    let mut i: usize = 0;
    while i < ids.len()
        invariant
            i <= ids@.len(),
            ids.deep_view().len() == ids@.len(),
            out@ == joined_lines(ids.deep_view().take(i as int)),
        decreases ids@.len() - i,
    {
        let c = chars_of(ids[i].as_str());
        let ghost prefix = ids.deep_view().take(i + 1);
        assert(prefix.drop_last() =~= ids.deep_view().take(i as int));
        assert(prefix.last() == ids@[i as int]@);
        if i > 0 {
            out.push('\n');
        }
        out = concat_chars(&out, &c);
        i = i + 1;
    }
    assert(ids.deep_view().take(ids@.len() as int) =~= ids.deep_view());
    string_from_chars(&out)
}

/// The entries an update run visits, in order: all of them when forced, else those whose
/// id is not among the ids saved as processed.
pub open spec fn pending_entries(plugins: Seq<Plugin>, processed: Seq<Seq<char>>, force: bool) -> Seq<Plugin>
    decreases plugins.len(),
{
    if plugins.len() == 0 {
        plugins
    } else {
        let prev = pending_entries(plugins.drop_last(), processed, force);
        if force || !processed.contains(plugins.last().id@) {
            prev.push(plugins.last())
        } else {
            prev
        }
    }
}

/// The entries still to update: with `force` every entry, else the entries whose id the
/// saved progress does not hold.
pub fn plugins_to_update(plugins: Vec<Plugin>, processed: &[String], force: bool) -> (res: Vec<Plugin>)
    ensures
        res@ == pending_entries(plugins@, processed.deep_view(), force),
{
    let ghost all = plugins@;
    let mut rest = plugins;
    let n = rest.len();
    assert(all.len() == n);
    let mut out: Vec<Plugin> = Vec::new();
    let mut k: usize = 0;
    while rest.len() > 0
        invariant
            k + rest@.len() == all.len(),
            all.len() <= usize::MAX,
            rest@ == all.skip(k as int),
            out@ == pending_entries(all.take(k as int), processed.deep_view(), force),
        decreases rest@.len(),
    {
        let p = rest.remove(0);
        let ghost pre = all.take(k + 1);
        assert(pre.drop_last() =~= all.take(k as int));
        assert(pre.last() == p);
        assert(rest@ =~= all.skip(k + 1));
        if force || !contains_str(processed, p.id.as_str()) {
            out.push(p);
        }
        k = k + 1;
    }
    assert(all.take(all.len() as int) =~= all);
    out
}

/// An update run that is not forced visits exactly the entries whose id the saved progress
/// does not hold: none of those it visits is processed already, and every entry not yet
/// processed is visited.
pub proof fn lemma_pending_unprocessed(plugins: Seq<Plugin>, processed: Seq<Seq<char>>)
    ensures
        forall|i: int|
            0 <= i < pending_entries(plugins, processed, false).len() ==> !processed.contains(
                #[trigger] pending_entries(plugins, processed, false)[i].id@,
            ),
        forall|j: int|
            0 <= j < plugins.len() && !processed.contains(#[trigger] plugins[j].id@) ==> pending_entries(
                plugins,
                processed,
                false,
            ).contains(plugins[j]),
    decreases plugins.len(),
{
    if plugins.len() > 0 {
        let init = plugins.drop_last();
        lemma_pending_unprocessed(init, processed);
        let prev = pending_entries(init, processed, false);
        let cur = pending_entries(plugins, processed, false);
        assert forall|j: int|
            0 <= j < plugins.len() && !processed.contains(#[trigger] plugins[j].id@) implies cur.contains(
            plugins[j],
        ) by {
            if j < plugins.len() - 1 {
                assert(init[j] == plugins[j]);
                let k = choose|k: int| 0 <= k < prev.len() && prev[k] == init[j];
                assert(cur[k] == prev[k]);
            } else {
                assert(cur[cur.len() - 1] == plugins.last());
            }
        }
    }
}

/// The ids of `base`, then each id of `adds` that is not already there, in order.
pub open spec fn ids_union(base: Seq<Seq<char>>, adds: Seq<Seq<char>>) -> Seq<Seq<char>>
    decreases adds.len(),
{
    if adds.len() == 0 {
        base
    } else {
        let prev = ids_union(base, adds.drop_last());
        if prev.contains(adds.last()) {
            prev
        } else {
            prev.push(adds.last())
        }
    }
}

/// The progress an update run leaves to be saved: when it stopped on the rate limit, the
/// ids processed before together with those processed in this run, each once; otherwise
/// none, since the next run starts over.
pub fn progress_after_update(processed: Vec<String>, newly: Vec<String>, stopped: bool) -> (res: Option<Vec<String>>)
    ensures
        stopped ==> (res matches Some(v) && v.deep_view() == ids_union(
            processed.deep_view(),
            newly.deep_view(),
        )),
        !stopped ==> res is None,
{
    if stopped {
        let ghost base = processed.deep_view();
        let ghost adds = newly.deep_view();
        let ghost raw = newly@;
        let mut all = processed;
        let mut rest = newly;
        let n = rest.len();
        let mut k: usize = 0;
        assert(adds.take(0) =~= Seq::<Seq<char>>::empty());
        while rest.len() > 0
            invariant
                k + rest@.len() == raw.len(),
                raw.len() == n,
                adds.len() == raw.len(),
                forall|i: int| 0 <= i < raw.len() ==> adds[i] == #[trigger] raw[i]@,
                rest@ == raw.skip(k as int),
                all.deep_view() == ids_union(base, adds.take(k as int)),
            decreases rest@.len(),
        {
            let id = rest.remove(0);
            assert(rest@ =~= raw.skip(k + 1));
            let ghost pre = adds.take(k + 1);
            assert(pre.drop_last() =~= adds.take(k as int));
            assert(pre.last() == id@);
            if !contains_str(all.as_slice(), id.as_str()) {
                let ghost before = all.deep_view();
                all.push(id);
                assert(all.deep_view() =~= before.push(pre.last()));
            }
            k = k + 1;
        }
        assert(adds.take(adds.len() as int) =~= adds);
        Some(all)
    } else {
        None
    }
}

/// Saved progress is the union of what was processed before and in this run: an id is in
/// it exactly when it is in either, and no id appears twice if none did before.
pub proof fn lemma_progress_union(base: Seq<Seq<char>>, adds: Seq<Seq<char>>)
    ensures
        forall|x: Seq<char>| #[trigger] ids_union(base, adds).contains(x) <==> base.contains(x) || adds.contains(x),
        base.no_duplicates() ==> ids_union(base, adds).no_duplicates(),
    decreases adds.len(),
{
    if adds.len() > 0 {
        let init = adds.drop_last();
        lemma_progress_union(base, init);
        let prev = ids_union(base, init);
        let cur = ids_union(base, adds);
        assert forall|x: Seq<char>| #[trigger] cur.contains(x) <==> base.contains(x) || adds.contains(x) by {
            if adds.contains(x) && !init.contains(x) {
                let j = choose|j: int| 0 <= j < adds.len() && adds[j] == x;
                if j < adds.len() - 1 {
                    assert(init[j] == x);
                }
            }
            if init.contains(x) {
                let j = choose|j: int| 0 <= j < init.len() && init[j] == x;
                assert(adds[j] == x);
            }
            if !prev.contains(adds.last()) {
                if cur.contains(x) {
                    let j = choose|j: int| 0 <= j < cur.len() && cur[j] == x;
                    if j < prev.len() {
                        assert(prev[j] == x);
                    }
                }
                if prev.contains(x) {
                    let j = choose|j: int| 0 <= j < prev.len() && prev[j] == x;
                    assert(cur[j] == x);
                }
                assert(cur[prev.len() as int] == adds.last());
            }
            assert(adds[adds.len() - 1] == adds.last());
        }
    }
}

/// Reading back a saved update-progress text gives the ids that were written, in
/// order, provided no id is empty and none holds a line break or ends in `\r`.
pub proof fn lemma_processed_ids_roundtrip(ids: Seq<Seq<char>>)
    requires
        forall|i: int|
            0 <= i < ids.len() ==> ids[i].len() > 0 && !has_char(ids[i], '\n') && ids[i].last()
                != '\r',
    ensures
        text_lines(joined_lines(ids)) == ids,
{
    lemma_split_joined(ids);
    let pieces = split_char(joined_lines(ids), '\n');
    if ids.len() == 0 {
        assert(pieces =~= seq![Seq::<char>::empty()]);
        assert(text_lines(joined_lines(ids)) =~= ids);
    } else {
        assert(pieces.last() == ids.last());
        assert(text_lines(joined_lines(ids)) =~= ids);
    }
}

/// A text without `sep` splits into itself.
pub proof fn lemma_split_no_sep(s: Seq<char>, sep: char)
    requires
        !has_char(s, sep),
    ensures
        split_char(s, sep) == seq![s],
    decreases s.len(),
{
    if s.len() > 0 {
        assert(!has_char(s.drop_last(), sep)) by {
            if has_char(s.drop_last(), sep) {
                let i = choose|i: int| 0 <= i < s.drop_last().len() && s.drop_last()[i] == sep;
                assert(s[i] == sep);
            }
        }
        lemma_split_no_sep(s.drop_last(), sep);
        assert(s.drop_last().push(s.last()) =~= s);
        assert(split_char(s, sep) =~= seq![s]);
    } else {
        assert(s =~= Seq::<char>::empty());
    }
}

/// Splitting `a + [sep] + b`, where `b` holds no `sep`, adds `b` as a last piece.
pub proof fn lemma_split_append_piece(a: Seq<char>, b: Seq<char>, sep: char)
    requires
        !has_char(b, sep),
    ensures
        split_char(a + seq![sep] + b, sep) == split_char(a, sep).push(b),
    decreases b.len(),
{
    if b.len() == 0 {
        let s = a + seq![sep] + b;
        assert(s.drop_last() =~= a);
        assert(s.last() == sep);
        assert(b =~= Seq::<char>::empty());
        assert(split_char(s, sep) == split_char(s.drop_last(), sep).push(Seq::<char>::empty()));
    } else {
        let s = a + seq![sep] + b;
        assert(s.drop_last() =~= a + seq![sep] + b.drop_last());
        assert(!has_char(b.drop_last(), sep)) by {
            if has_char(b.drop_last(), sep) {
                let i = choose|i: int| 0 <= i < b.drop_last().len() && b.drop_last()[i] == sep;
                assert(b[i] == sep);
            }
        }
        lemma_split_append_piece(a, b.drop_last(), sep);
        assert(s.last() == b.last());
        assert(b.last() != sep);
        lemma_split_char_nonempty(a, sep);
        assert(b.drop_last().push(b.last()) =~= b);
        assert(split_char(s, sep) =~= split_char(a, sep).push(b));
    }
}

/// Splitting ids joined by `\n` gives the ids back (an empty list gives one empty piece).
pub proof fn lemma_split_joined(ids: Seq<Seq<char>>)
    requires
        forall|i: int| 0 <= i < ids.len() ==> !has_char(ids[i], '\n'),
    ensures
        ids.len() == 0 ==> split_char(joined_lines(ids), '\n') == seq![Seq::<char>::empty()],
        ids.len() > 0 ==> split_char(joined_lines(ids), '\n') == ids,
    decreases ids.len(),
{
    if ids.len() == 0 {
        assert(split_char(Seq::<char>::empty(), '\n') =~= seq![Seq::<char>::empty()]);
    } else if ids.len() == 1 {
        lemma_split_no_sep(ids[0], '\n');
        assert(seq![ids[0]] =~= ids);
    } else {
        lemma_split_joined(ids.drop_last());
        lemma_split_append_piece(joined_lines(ids.drop_last()), ids.last(), '\n');
        assert(ids.drop_last().push(ids.last()) =~= ids);
    }
}

} // verus!
