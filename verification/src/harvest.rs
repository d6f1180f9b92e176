//! Environment harvesting: the login environment of a named user, obtained by
//! impersonation. A privileged caller asks for a helper invocation (the
//! platform's switch-user facility running an environment dump), the runner
//! executes it, and the captured output is parsed here: one `NAME=VALUE`
//! record per line, split at the first `=`, lines without `=` dropped, a
//! later record for a name overriding an earlier one.
use vstd::prelude::*;

use crate::envmap::EnvironmentMap;
use crate::envmap::map_of_pairs;
use crate::is_privileged;
use vstd::string::StringExecFns;

verus! {

/// Why a harvest could not produce an environment.
#[derive(Debug, Clone, PartialEq, Eq)]
pub enum Error {
    /// The caller does not hold superuser privilege; nothing was attempted.
    InsufficientPrivilege,
    /// The helper process could not be launched; carries the operating
    /// system's error text.
    HelperProcessUnavailable(String),
    /// The helper process exited with failure; carries its captured
    /// standard-error bytes, verbatim.
    HelperProcessFailed(Vec<u8>),
}

/// The diagnostic text of a harvest failure.
pub open spec fn error_message(e: Error) -> Seq<char> {
    match e {
        Error::InsufficientPrivilege => "Insufficient privileges"@,
        Error::HelperProcessUnavailable(t) => "Failed executing command: "@ + t@,
        Error::HelperProcessFailed(b) => "Command exited: "@ + lossy_of(b@),
    }
}

impl Error {
    /// A short description of the failure, for diagnostics.
    pub fn message(&self) -> (r: String)
        ensures
            r@ == error_message(*self),
    {
        match self {
            Error::InsufficientPrivilege => "Insufficient privileges".to_owned(),
            Error::HelperProcessUnavailable(t) => "Failed executing command: ".to_owned().concat(
                t.as_str(),
            ),
            Error::HelperProcessFailed(b) => {
                let text = lossy_string(b);
                "Command exited: ".to_owned().concat(text.as_str())
            },
        }
    }
}

/// The line-feed byte that separates captured records.
pub const LINE_FEED: u8 = 10;

/// The carriage-return byte, stripped when it ends a line.
pub const CARRIAGE_RETURN: u8 = 13;

/// The byte `=`, which splits a record into name and value.
pub const EQUALS_SIGN: u8 = 61;

/// The segments of a byte sequence split at every line feed. There is always
/// at least one segment; a trailing line feed yields a final empty segment.
pub open spec fn split_lines(s: Seq<u8>) -> Seq<Seq<u8>>
    decreases s.len(),
{
    if s.len() == 0 {
        seq![Seq::<u8>::empty()]
    } else {
        let rest = split_lines(s.drop_last());
        if s.last() == LINE_FEED {
            rest.push(Seq::<u8>::empty())
        } else {
            rest.update(rest.len() - 1, rest.last().push(s.last()))
        }
    }
}

/// A split always yields at least one segment, and no segment holds a line
/// feed.
pub proof fn lemma_split_lines_segments(s: Seq<u8>)
    ensures
        split_lines(s).len() >= 1,
        forall|i: int|
            0 <= i < split_lines(s).len() ==> !(#[trigger] split_lines(s)[i]).contains(LINE_FEED),
    decreases s.len(),
{
    if s.len() == 0 {
        assert forall|i: int|
            0 <= i < split_lines(s).len() implies !(#[trigger] split_lines(s)[i]).contains(
            LINE_FEED,
        ) by {
            assert(split_lines(s)[i] =~= Seq::<u8>::empty());
        }
    } else {
        lemma_split_lines_segments(s.drop_last());
        let rest = split_lines(s.drop_last());
        assert forall|i: int|
            0 <= i < split_lines(s).len() implies !(#[trigger] split_lines(s)[i]).contains(
            LINE_FEED,
        ) by {
            if s.last() == LINE_FEED {
                if i < rest.len() {
                    assert(split_lines(s)[i] == rest[i]);
                } else {
                    assert(split_lines(s)[i] =~= Seq::<u8>::empty());
                }
            } else {
                if i == rest.len() - 1 {
                    let ext = rest.last().push(s.last());
                    assert(split_lines(s)[i] == ext);
                    assert forall|j: int| 0 <= j < ext.len() implies ext[j] != LINE_FEED by {
                        if j < ext.len() - 1 {
                            assert(ext[j] == rest.last()[j]);
                            assert(!rest[rest.len() - 1].contains(LINE_FEED));
                        }
                    }
                } else {
                    assert(split_lines(s)[i] == rest[i]);
                }
            }
        }
    }
}

/// A line with its one trailing carriage return removed, if it has one.
pub open spec fn strip_cr(line: Seq<u8>) -> Seq<u8> {
    if line.len() > 0 && line.last() == CARRIAGE_RETURN {
        line.drop_last()
    } else {
        line
    }
}

/// The position of the first `=` in a line, or -1 when it has none.
pub open spec fn eq_index(line: Seq<u8>) -> int
    decreases line.len(),
{
    if line.len() == 0 {
        -1
    } else if line[0] == EQUALS_SIGN {
        0
    } else {
        let r = eq_index(line.skip(1));
        if r < 0 {
            -1
        } else {
            1 + r
        }
    }
}

/// The first `=` of a line is where the first `=` stands.
proof fn lemma_eq_index_found(line: Seq<u8>, i: int)
    requires
        0 <= i < line.len(),
        line[i] == EQUALS_SIGN,
        forall|j: int| 0 <= j < i ==> line[j] != EQUALS_SIGN,
    ensures
        eq_index(line) == i,
    decreases i,
{
    if i == 0 {
    } else {
        let tail = line.skip(1);
        assert(tail[i - 1] == line[i]);
        assert forall|j: int| 0 <= j < i - 1 implies tail[j] != EQUALS_SIGN by {
            assert(tail[j] == line[j + 1]);
        }
        lemma_eq_index_found(tail, i - 1);
        assert(line[0] != EQUALS_SIGN);
    }
}

/// A line with no `=` has no split position.
proof fn lemma_eq_index_absent(line: Seq<u8>)
    requires
        forall|j: int| 0 <= j < line.len() ==> line[j] != EQUALS_SIGN,
    ensures
        eq_index(line) == -1,
    decreases line.len(),
{
    if line.len() == 0 {
    } else {
        let tail = line.skip(1);
        assert forall|j: int| 0 <= j < tail.len() implies tail[j] != EQUALS_SIGN by {
            assert(tail[j] == line[j + 1]);
        }
        lemma_eq_index_absent(tail);
    }
}

/// The record a captured line yields: its name and value split at the first
/// `=` after stripping a trailing carriage return, or nothing when the line
/// has no `=`.
pub open spec fn record_of_line(line: Seq<u8>) -> Option<(Seq<u8>, Seq<u8>)> {
    let t = strip_cr(line);
    let i = eq_index(t);
    if i < 0 {
        None
    } else {
        Some((t.take(i), t.skip(i + 1)))
    }
}

/// The records of a segment sequence, in order: one per line that has an
/// `=`; lines without one contribute nothing.
pub open spec fn records_of(segs: Seq<Seq<u8>>) -> Seq<(Seq<u8>, Seq<u8>)>
    decreases segs.len(),
{
    if segs.len() == 0 {
        Seq::<(Seq<u8>, Seq<u8>)>::empty()
    } else {
        let rest = records_of(segs.drop_last());
        match record_of_line(segs.last()) {
            Some(r) => rest.push(r),
            None => rest,
        }
    }
}

/// Law: a line without `=` contributes no record, so removing it leaves the
/// harvested records — and with them the harvested map — unchanged. (Such a
/// line never makes the harvest fail either: parsing is total.)
pub proof fn lemma_line_without_eq_dropped(segs: Seq<Seq<u8>>, i: int)
    requires
        0 <= i < segs.len(),
        record_of_line(segs[i]) is None,
    ensures
        records_of(segs.remove(i)) == records_of(segs),
    decreases segs.len(),
{
    if i == segs.len() - 1 {
        assert(segs.remove(i) =~= segs.drop_last());
    } else {
        assert(segs.drop_last()[i] == segs[i]);
        lemma_line_without_eq_dropped(segs.drop_last(), i);
        assert(segs.remove(i).drop_last() =~= segs.drop_last().remove(i));
        assert(segs.remove(i).last() == segs.last());
    }
}

/// What the platform's lossy text decoding yields for a byte sequence:
/// a pure function of the bytes alone.
pub uninterp spec fn lossy_of(bytes: Seq<u8>) -> Seq<char>;

/// Relies on String::from_utf8_lossy: decodes the bytes as UTF-8, replacing
/// each invalid sequence with the replacement character; the result depends
/// on the bytes alone.
#[verifier::external_body]
fn lossy_string(bytes: &Vec<u8>) -> (r: String)
    ensures
        r@ == lossy_of(bytes@),
{
    String::from_utf8_lossy(bytes.as_slice()).into_owned()
}

/// The records' names and values decoded as text.
pub open spec fn lossy_pairs(rs: Seq<(Seq<u8>, Seq<u8>)>) -> Seq<(Seq<char>, Seq<char>)> {
    rs.map_values(|r: (Seq<u8>, Seq<u8>)| (lossy_of(r.0), lossy_of(r.1)))
}

/// The environment a captured byte sequence denotes: its lines' records,
/// decoded and inserted in order, a later record for a name overriding an
/// earlier one.
pub open spec fn harvest_env_map(bytes: Seq<u8>) -> Map<Seq<char>, Seq<char>> {
    map_of_pairs(lossy_pairs(records_of(split_lines(bytes))))
}

/// Law: harvesting holds exactly one entry per name, and the entry of the
/// name of record `i` carries the value of the last record with that name.
/// Together with `envmap::lemma_map_of_pairs_dom` — the harvested names are
/// exactly the records' names — this pins the whole harvested map down.
pub proof fn lemma_harvest_last_write_wins(bytes: Seq<u8>, i: int)
    requires
        0 <= i < lossy_pairs(records_of(split_lines(bytes))).len(),
        forall|j: int|
            i < j < lossy_pairs(records_of(split_lines(bytes))).len() ==> (#[trigger] lossy_pairs(
                records_of(split_lines(bytes)),
            )[j]).0 != lossy_pairs(records_of(split_lines(bytes)))[i].0,
    ensures
        harvest_env_map(bytes).dom().contains(lossy_pairs(records_of(split_lines(bytes)))[i].0),
        harvest_env_map(bytes)[lossy_pairs(records_of(split_lines(bytes)))[i].0] == lossy_pairs(
            records_of(split_lines(bytes)),
        )[i].1,
{
    crate::envmap::lemma_last_write_wins(lossy_pairs(records_of(split_lines(bytes))), i);
}

/// The helper invocation that harvests a user's login environment: the
/// platform's switch-user command, told to start a login shell for the user
/// and run an environment dump in it.
pub struct HelperInvocation {
    pub program: String,
    pub args: Vec<String>,
}

/// The exact helper invocation for a username: `su - <username> -c printenv`.
pub open spec fn is_su_invocation(inv: HelperInvocation, username: Seq<char>) -> bool {
    &&& inv.program@ == "su"@
    &&& inv.args@.len() == 4
    &&& inv.args@[0]@ == "-"@
    &&& inv.args@[1]@ == username
    &&& inv.args@[2]@ == "-c"@
    &&& inv.args@[3]@ == "printenv"@
}

/// Decides whether a harvest may proceed for a caller with the given
/// effective user id, and if so with which helper invocation. An
/// unprivileged caller is refused before any helper invocation exists, so
/// no subprocess can be spawned on its behalf.
pub fn harvest_plan(username: &String, euid: u32) -> (r: Result<HelperInvocation, Error>)
    ensures
        !is_privileged(euid) ==> (r matches Err(e) && e == Error::InsufficientPrivilege),
        is_privileged(euid) ==> (r matches Ok(inv) && is_su_invocation(inv, username@)),
{
    if !crate::privileged(euid) {
        return Err(Error::InsufficientPrivilege);
    }
    let mut args: Vec<String> = Vec::new();
    args.push("-".to_owned());
    args.push(username.clone());
    args.push("-c".to_owned());
    args.push("printenv".to_owned());
    Ok(HelperInvocation { program: "su".to_owned(), args })
}

/// Decides a harvest for the calling process itself: reads the caller's
/// effective user id from the operating system and plans accordingly.
/// Whatever the id read, the result is either the exact helper invocation or
/// a privilege refusal.
pub fn harvest_begin(username: &String) -> (r: Result<HelperInvocation, Error>)
    ensures
        r matches Err(e) ==> e == Error::InsufficientPrivilege,
        r matches Ok(inv) ==> is_su_invocation(inv, username@),
{
    let euid = crate::effective_uid();
    harvest_plan(username, euid)
}

/// Turns the helper's captured exit and output into the harvest's result: a
/// failed helper surfaces its standard-error bytes verbatim; a successful
/// one has its standard output parsed into the environment map.
pub fn harvest_outcome(success: bool, stdout: &Vec<u8>, stderr: Vec<u8>) -> (r: Result<
    EnvironmentMap,
    Error,
>)
    ensures
        !success ==> r == Err::<EnvironmentMap, Error>(Error::HelperProcessFailed(stderr)),
        success ==> (r matches Ok(m) && m.wf() && m@ == harvest_env_map(stdout@)),
{
    if !success {
        return Err(Error::HelperProcessFailed(stderr));
    }
    Ok(parse_env_output(stdout))
}

/// Splits one captured line into its record, if it has one.
fn record_of(line: &Vec<u8>) -> (r: Option<(Vec<u8>, Vec<u8>)>)
    ensures
        r is Some <==> record_of_line(line@) is Some,
        r matches Some(kv) ==> (record_of_line(line@) matches Some(sp) && kv.0@ == sp.0 && kv.1@
            == sp.1),
{
    let mut t: Vec<u8> = line.clone();
    proof {
        assert(t@ =~= line@);
    }
    if t.len() > 0 && t[t.len() - 1] == CARRIAGE_RETURN {
        t.pop();
        proof {
            assert(t@ =~= strip_cr(line@));
        }
    }
    proof {
        assert(t@ =~= strip_cr(line@));
    }
    let mut i: usize = 0;
    while i < t.len()
        invariant
            i <= t@.len(),
            t@ == strip_cr(line@),
            forall|j: int| 0 <= j < i ==> t@[j] != EQUALS_SIGN,
        decreases t@.len() - i,
    {
        if t[i] == EQUALS_SIGN {
            proof {
                lemma_eq_index_found(t@, i as int);
            }
            let mut value = t.split_off(i);
            value.remove(0);
            proof {
                assert(t@ =~= strip_cr(line@).take(i as int));
                assert(value@ =~= strip_cr(line@).skip(i as int + 1));
            }
            return Some((t, value));
        }
        i = i + 1;
    }
    proof {
        lemma_eq_index_absent(t@);
    }
    None
}

/// Parses captured helper output into an environment map: each line is split
/// at its first `=`; lines without `=` are dropped; a later record for a name
/// overrides an earlier one; names and values are decoded leniently.
pub fn parse_env_output(bytes: &Vec<u8>) -> (m: EnvironmentMap)
    ensures
        m.wf(),
        m@ == harvest_env_map(bytes@),
{
    let mut m = EnvironmentMap::new();
    let mut line: Vec<u8> = Vec::new();
    proof {
        assert(bytes@.take(0) =~= Seq::<u8>::empty());
        assert(line@ =~= split_lines(bytes@.take(0)).last());
        assert(split_lines(bytes@.take(0)).drop_last() =~= Seq::<Seq<u8>>::empty());
        assert(lossy_pairs(records_of(split_lines(bytes@.take(0)).drop_last())) =~= Seq::<(
            Seq<char>,
            Seq<char>,
        )>::empty());
    }
    let mut i: usize = 0;
    while i < bytes.len()
        invariant
            i <= bytes@.len(),
            m.wf(),
            line@ == split_lines(bytes@.take(i as int)).last(),
            m@ == map_of_pairs(lossy_pairs(records_of(split_lines(bytes@.take(i as int)).drop_last()))),
        decreases bytes@.len() - i,
    {
        let ghost pre = bytes@.take(i as int);
        let ghost segs = split_lines(pre);
        let c = bytes[i];
        proof {
            assert(bytes@.take(i + 1) =~= pre.push(c));
            assert(pre.push(c).drop_last() =~= pre);
            assert(pre.push(c).last() == c);
        }
        if c == LINE_FEED {
            proof {
                lemma_split_lines_segments(pre);
                assert(split_lines(pre.push(c)) == segs.push(Seq::<u8>::empty()));
                assert(split_lines(pre.push(c)).drop_last() =~= segs);
            }
            match record_of(&line) {
                Some(kv) => {
                    let key = lossy_string(&kv.0);
                    let value = lossy_string(&kv.1);
                    proof {
                        let rs = records_of(segs.drop_last());
                        let rec = (kv.0@, kv.1@);
                        assert(record_of_line(segs.last()) matches Some(sp) && sp == rec);
                        assert(records_of(segs) == rs.push(rec));
                        assert(lossy_pairs(rs.push(rec)) =~= lossy_pairs(rs).push((key@, value@)));
                        assert(map_of_pairs(lossy_pairs(rs).push((key@, value@))) == map_of_pairs(
                            lossy_pairs(rs),
                        ).insert(key@, value@)) by {
                            assert(lossy_pairs(rs).push((key@, value@)).drop_last() =~= lossy_pairs(
                                rs,
                            ));
                        }
                    }
                    m.insert(key, value);
                },
                None => {
                    proof {
                        assert(record_of_line(segs.last()) is None);
                        assert(records_of(segs) == records_of(segs.drop_last()));
                    }
                },
            }
            line.clear();
        } else {
            proof {
                let segs2 = split_lines(pre.push(c));
                assert(segs2 == segs.update(segs.len() - 1, segs.last().push(c)));
                lemma_split_lines_segments(pre);
                assert(segs2.drop_last() =~= segs.drop_last());
                assert(segs2.last() == segs.last().push(c));
            }
            line.push(c);
        }
        i = i + 1;
    }
    proof {
        assert(bytes@.take(i as int) =~= bytes@);
        lemma_split_lines_segments(bytes@);
    }
    match record_of(&line) {
        Some(kv) => {
            let key = lossy_string(&kv.0);
            let value = lossy_string(&kv.1);
            proof {
                let segs = split_lines(bytes@);
                let rs = records_of(segs.drop_last());
                let rec = (kv.0@, kv.1@);
                assert(record_of_line(segs.last()) matches Some(sp) && sp == rec);
                assert(records_of(segs) == rs.push(rec));
                assert(lossy_pairs(rs.push(rec)) =~= lossy_pairs(rs).push((key@, value@)));
                assert(map_of_pairs(lossy_pairs(rs).push((key@, value@))) == map_of_pairs(
                    lossy_pairs(rs),
                ).insert(key@, value@)) by {
                    assert(lossy_pairs(rs).push((key@, value@)).drop_last() =~= lossy_pairs(rs));
                }
            }
            m.insert(key, value);
        },
        None => {
            proof {
                let segs = split_lines(bytes@);
                assert(record_of_line(segs.last()) is None);
                assert(records_of(segs) == records_of(segs.drop_last()));
            }
        },
    }
    m
}

} // verus!
