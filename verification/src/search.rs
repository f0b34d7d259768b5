//! Line search: find the lines of a text that contain a query.

use vstd::prelude::*;
use vstd::string::StrSliceExecFns;
use vstd::string::StringExecFns;

verus! {

/// What a search run needs: the query, the file to search, and whether case
/// matters.
pub struct Config {
    pub query: String,
    pub filename: String,
    pub case_sensitive: bool,
}

impl Config {
    /// Build a `Config` from command-line arguments (the first one being
    /// the program name) and the case flag.  Fewer than two real arguments
    /// is a usage error.
    pub fn new(args: &Vec<String>, case_sensitive: bool) -> (r: Result<Config, String>)
        ensures
            match r {
                Ok(c) => args@.len() >= 3 && c.query@ == args@[1]@ && c.filename@ == args@[2]@
                    && c.case_sensitive == case_sensitive,
                Err(e) => args@.len() < 3 && e@ == "Usage: query filename"@,
            },
    {
        if args.len() < 3 {
            return Err(String::from_str("Usage: query filename"));
        }
        Ok(Config {
            query: args[1].clone(),
            filename: args[2].clone(),
            case_sensitive,
        })
    }
}

/// `needle` occurs contiguously somewhere in `hay`.
pub open spec fn contains_seq(hay: Seq<char>, needle: Seq<char>) -> bool {
    exists|j: int|
        0 <= j && j + needle.len() <= hay.len() && #[trigger] hay.subrange(j, j + needle.len())
            == needle
}

/// Whether `hay` has `needle` as a contiguous part.
pub fn contains_sub(hay: &str, needle: &str) -> (r: bool)
    ensures
        r == contains_seq(hay@, needle@),
{
    let h = hay.unicode_len();
    let m = needle.unicode_len();
    if m > h {
        proof {
            assert(!contains_seq(hay@, needle@)) by {
                assert forall|j: int|
                    !(0 <= j && j + needle@.len() <= hay@.len()
                        && #[trigger] hay@.subrange(j, j + needle@.len()) == needle@) by {
                }
            }
        }
        return false;
    }
    let mut j: usize = 0;
    while j <= h - m
        invariant
            m <= h,
            h == hay@.len(),
            m == needle@.len(),
            j <= h - m + 1,
            forall|j0: int|
                0 <= j0 < j ==> #[trigger] hay@.subrange(j0, j0 + needle@.len()) != needle@,
        decreases h - m - j + 1,
    {
        let mut t: usize = 0;
        let mut all_eq: bool = true;
        while t < m
            invariant
                m <= h,
                h == hay@.len(),
                m == needle@.len(),
                j + m <= h,
                t <= m,
                all_eq ==> (forall|t0: int| 0 <= t0 < t ==> hay@[j + t0] == needle@[t0]),
                !all_eq ==> (exists|t0: int| 0 <= t0 < m && hay@[j + t0] != needle@[t0]),
            decreases m - t,
        {
            if hay.get_char(j + t) != needle.get_char(t) {
                all_eq = false;
                proof {
                    assert(hay@[j + t] != needle@[t as int]);
                }
            }
            t += 1;
        }
        if all_eq {
            proof {
                assert(hay@.subrange(j as int, j + needle@.len()) =~= needle@);
            }
            return true;
        }
        proof {
            assert(hay@.subrange(j as int, j + needle@.len()) != needle@) by {
                assert(exists|t0: int| 0 <= t0 < m && hay@[j + t0] != needle@[t0]);
                let t0 = choose|t0: int| 0 <= t0 < m && hay@[j + t0] != needle@[t0];
                assert(hay@.subrange(j as int, j + needle@.len())[t0] == hay@[j + t0]);
            }
        }
        j += 1;
    }
    proof {
        assert forall|j0: int|
            0 <= j0 && j0 + needle@.len() <= hay@.len() implies #[trigger] hay@.subrange(
            j0,
            j0 + needle@.len(),
        ) != needle@ by {
            assert(j0 < j);
        }
    }
    false
}

/// A completed line loses one trailing carriage return.
pub open spec fn strip_cr(t: Seq<char>) -> Seq<char> {
    if t.len() > 0 && t.last() == '\r' {
        t.drop_last()
    } else {
        t
    }
}

/// The lines of `s` after `cur`, the partial line read so far.  A newline
/// completes `cur` (minus one trailing carriage return); a final partial
/// line counts only if nonempty.
pub open spec fn lines_from(s: Seq<char>, cur: Seq<char>) -> Seq<Seq<char>>
    decreases s.len(),
{
    if s.len() == 0 {
        if cur.len() == 0 {
            Seq::empty()
        } else {
            seq![cur]
        }
    } else if s[0] == '\n' {
        seq![strip_cr(cur)] + lines_from(s.drop_first(), Seq::empty())
    } else {
        lines_from(s.drop_first(), cur.push(s[0]))
    }
}

/// The lines of `s`, split as `str::lines` splits: at each newline, with one
/// carriage return stripped before a newline, and with no empty line after a
/// final newline.
pub open spec fn split_lines(s: Seq<char>) -> Seq<Seq<char>> {
    lines_from(s, Seq::empty())
}

/// Split `contents` into its lines.
pub fn lines_of<'a>(contents: &'a str) -> (r: Vec<&'a str>)
    ensures
        r.deep_view() == split_lines(contents@),
{
    let ghost s = contents@;
    let n = contents.unicode_len();
    let mut r: Vec<&'a str> = Vec::new();
    let mut start: usize = 0;
    let mut i: usize = 0;
    proof {
        assert(r.deep_view() =~= Seq::<Seq<char>>::empty());
        assert(s.subrange(0, n as int) =~= s);
        assert(s.subrange(0, 0) =~= Seq::<char>::empty());
        assert(Seq::<Seq<char>>::empty() + lines_from(s, Seq::<char>::empty()) =~= lines_from(
            s,
            Seq::<char>::empty(),
        ));
    }
    while i < n
        invariant
            start <= i <= n,
            n == s.len(),
            s == contents@,
            split_lines(s) == r.deep_view() + lines_from(
                s.subrange(i as int, n as int),
                s.subrange(start as int, i as int),
            ),
        decreases n - i,
    {
        let ghost done = r.deep_view();
        let ghost rem = s.subrange(i as int, n as int);
        let ghost cur = s.subrange(start as int, i as int);
        let c = contents.get_char(i);
        proof {
            assert(rem[0] == s[i as int]);
            assert(rem.drop_first() =~= s.subrange(i + 1, n as int));
        }
        if c == '\n' {
            let line: &'a str = if i > start && contents.get_char(i - 1) == '\r' {
                contents.substring_char(start, i - 1)
            } else {
                contents.substring_char(start, i)
            };
            proof {
                assert(line@ =~= strip_cr(cur));
            }
            r.push(line);
            proof {
                assert(r.deep_view() =~= done.push(strip_cr(cur)));
                assert(done.push(strip_cr(cur)) + lines_from(
                    s.subrange(i + 1, n as int),
                    Seq::empty(),
                ) =~= done + (seq![strip_cr(cur)] + lines_from(
                    s.subrange(i + 1, n as int),
                    Seq::empty(),
                )));
            }
            proof {
                assert(s.subrange(i + 1, i + 1) =~= Seq::<char>::empty());
            }
            start = i + 1;
        } else {
            proof {
                assert(cur.push(s[i as int]) =~= s.subrange(start as int, i + 1));
            }
        }
        i += 1;
    }
    if start < n {
        let ghost done = r.deep_view();
        let line: &'a str = contents.substring_char(start, n);
        r.push(line);
        proof {
            assert(s.subrange(i as int, n as int).len() == 0);
            assert(r.deep_view() =~= done.push(s.subrange(start as int, n as int)));
            assert(split_lines(s) =~= r.deep_view());
        }
    } else {
        proof {
            assert(s.subrange(i as int, n as int).len() == 0);
            assert(s.subrange(start as int, i as int).len() == 0);
            assert(split_lines(s) =~= r.deep_view());
        }
    }
    r
}

/// Of `lines`, those that contain `q`, in order.
pub open spec fn matching_lines(lines: Seq<Seq<char>>, q: Seq<char>) -> Seq<Seq<char>>
    decreases lines.len(),
{
    if lines.len() == 0 {
        Seq::empty()
    } else {
        let rest = matching_lines(lines.drop_first(), q);
        if contains_seq(lines[0], q) {
            seq![lines[0]] + rest
        } else {
            rest
        }
    }
}

/// Of `lines`, those whose lowercase form contains the lowercase form of
/// `q`, in order.
pub open spec fn ci_matching_lines(lines: Seq<Seq<char>>, q: Seq<char>) -> Seq<Seq<char>>
    decreases lines.len(),
{
    if lines.len() == 0 {
        Seq::empty()
    } else {
        let rest = ci_matching_lines(lines.drop_first(), q);
        if contains_seq(lower_of(lines[0]), lower_of(q)) {
            seq![lines[0]] + rest
        } else {
            rest
        }
    }
}

/// The lowercase form of a sequence of characters, as `str::to_lowercase`
/// produces it.
pub uninterp spec fn lower_of(s: Seq<char>) -> Seq<char>;

/// Relies on str::to_lowercase: the result depends on the characters alone.
#[verifier::external_body]
fn to_lowercase_str(s: &str) -> (r: String)
    ensures
        r@ == lower_of(s@),
{
    s.to_lowercase()
}

/// The lines of `contents` that contain `query`, in order.
pub fn search<'a>(query: &str, contents: &'a str) -> (r: Vec<&'a str>)
    ensures
        r.deep_view() == matching_lines(split_lines(contents@), query@),
{
    let lines = lines_of(contents);
    let ghost all = lines.deep_view();
    let mut results: Vec<&'a str> = Vec::new();
    let mut k: usize = 0;
    proof {
        assert(results.deep_view() =~= Seq::<Seq<char>>::empty());
        assert(all.subrange(0, all.len() as int) =~= all);
        assert(Seq::<Seq<char>>::empty() + matching_lines(all, query@) =~= matching_lines(
            all,
            query@,
        ));
    }
    while k < lines.len()
        invariant
            k <= lines@.len(),
            all == lines.deep_view(),
            matching_lines(all, query@) == results.deep_view() + matching_lines(
                all.subrange(k as int, all.len() as int),
                query@,
            ),
        decreases lines@.len() - k,
    {
        let ghost done = results.deep_view();
        let ghost rem = all.subrange(k as int, all.len() as int);
        proof {
            assert(rem[0] == all[k as int]);
            assert(rem.drop_first() =~= all.subrange(k + 1, all.len() as int));
        }
        let line = lines[k];
        if contains_sub(line, query) {
            results.push(line);
            proof {
                assert(results.deep_view() =~= done.push(all[k as int]));
                assert(done.push(all[k as int]) + matching_lines(
                    all.subrange(k + 1, all.len() as int),
                    query@,
                ) =~= done + (seq![all[k as int]] + matching_lines(
                    all.subrange(k + 1, all.len() as int),
                    query@,
                )));
            }
        }
        k += 1;
    }
    proof {
        assert(all.subrange(k as int, all.len() as int).len() == 0);
        assert(matching_lines(all, query@) =~= results.deep_view());
    }
    results
}

/// The lines of `contents` that contain `query` once both are lowercased,
/// in order; the lines come back in their original spelling.
pub fn search_case_insensitive<'a>(query: &str, contents: &'a str) -> (r: Vec<&'a str>)
    ensures
        r.deep_view() == ci_matching_lines(split_lines(contents@), query@),
{
    let query_lower = to_lowercase_str(query);
    let lines = lines_of(contents);
    let ghost all = lines.deep_view();
    let mut results: Vec<&'a str> = Vec::new();
    let mut k: usize = 0;
    proof {
        assert(results.deep_view() =~= Seq::<Seq<char>>::empty());
        assert(all.subrange(0, all.len() as int) =~= all);
        assert(Seq::<Seq<char>>::empty() + ci_matching_lines(all, query@) =~= ci_matching_lines(
            all,
            query@,
        ));
    }
    while k < lines.len()
        invariant
            k <= lines@.len(),
            all == lines.deep_view(),
            query_lower@ == lower_of(query@),
            ci_matching_lines(all, query@) == results.deep_view() + ci_matching_lines(
                all.subrange(k as int, all.len() as int),
                query@,
            ),
        decreases lines@.len() - k,
    {
        let ghost done = results.deep_view();
        let ghost rem = all.subrange(k as int, all.len() as int);
        proof {
            assert(rem[0] == all[k as int]);
            assert(rem.drop_first() =~= all.subrange(k + 1, all.len() as int));
        }
        let line = lines[k];
        let line_lower = to_lowercase_str(line);
        if contains_sub(line_lower.as_str(), query_lower.as_str()) {
            results.push(line);
            proof {
                assert(results.deep_view() =~= done.push(all[k as int]));
                assert(done.push(all[k as int]) + ci_matching_lines(
                    all.subrange(k + 1, all.len() as int),
                    query@,
                ) =~= done + (seq![all[k as int]] + ci_matching_lines(
                    all.subrange(k + 1, all.len() as int),
                    query@,
                )));
            }
        }
        k += 1;
    }
    proof {
        assert(all.subrange(k as int, all.len() as int).len() == 0);
        assert(ci_matching_lines(all, query@) =~= results.deep_view());
    }
    results
}

/// The matching lines for a run: case-sensitive or not, as the flag says.
pub fn search_with<'a>(case_sensitive: bool, query: &str, contents: &'a str) -> (r: Vec<&'a str>)
    ensures
        case_sensitive ==> r.deep_view() == matching_lines(split_lines(contents@), query@),
        !case_sensitive ==> r.deep_view() == ci_matching_lines(split_lines(contents@), query@),
{
    if case_sensitive {
        search(query, contents)
    } else {
        search_case_insensitive(query, contents)
    }
}

} // verus!
