//! The port reaper's decision logic: given the OS's connection
//! listing, find every process that sits on a given reserved port so
//! the caller can force-terminate it before a fresh spawn. Reaping is
//! entirely best-effort — whatever the caller cannot kill it ignores —
//! so this module only ever selects targets; it reports no errors.

use vstd::prelude::*;

verus! {

use crate::text::{
    contains_chars,
    contains_seq,
    dec_digits,
    last_token,
    last_token_str,
    parse_u32,
    parse_u32_spec,
    push_dec_digits,
    split_fields,
    split_on,
    views_of,
};

/// The text that marks a listing line as concerning the port: a colon
/// directly followed by the port's decimal digits, as the OS prints
/// local and remote addresses.
pub open spec fn port_pattern_spec(port: u16) -> Seq<char> {
    seq![':'] + dec_digits(port as nat)
}

/// The process identifier a listing line names: its last
/// whitespace-separated column read as an unsigned number. Zero is
/// the idle pseudo-process and is never a target.
pub open spec fn line_pid(line: Seq<char>) -> Option<u32> {
    match parse_u32_spec(last_token(line)) {
        Some(p) => if p > 0 {
            Some(p)
        } else {
            None
        },
        None => None,
    }
}

/// The targets named by a sequence of listing lines, in order: the
/// process of every line that mentions the port and ends in a nonzero
/// process identifier. A process listed on several lines is named
/// several times; terminating it again is harmless.
pub open spec fn collect_pids(lines: Seq<Seq<char>>, pattern: Seq<char>) -> Seq<u32>
    decreases lines.len(),
{
    if lines.len() == 0 {
        Seq::<u32>::empty()
    } else {
        collect_pids(lines.drop_last(), pattern) + if contains_seq(lines.last(), pattern) {
            match line_pid(lines.last()) {
                Some(p) => seq![p],
                None => Seq::<u32>::empty(),
            }
        } else {
            Seq::<u32>::empty()
        }
    }
}

/// Every process that the listing shows on the port.
pub open spec fn reap_targets(listing: Seq<char>, port: u16) -> Seq<u32> {
    collect_pids(split_fields(listing, '\n'), port_pattern_spec(port))
}

/// Selects the zombie processes to terminate on a reserved port from
/// the OS's connection listing. The caller runs the listing command,
/// force-terminates each returned process, and swallows every failure:
/// a failure here most often means there was nothing left to reap.
pub fn kill_zombie_on_port(port: u16, listing: &str) -> (pids: Vec<u32>)
    ensures
        pids@ == reap_targets(listing@, port),
{
    let mut pattern: Vec<char> = Vec::new();
    pattern.push(':');
    push_dec_digits(port as u64, &mut pattern);
    assert(pattern@ =~= port_pattern_spec(port));
    let lines = split_on(listing, '\n');
    let ghost lviews = split_fields(listing@, '\n');
    let mut pids: Vec<u32> = Vec::new();
    let mut i: usize = 0;
    while i < lines.len()
        invariant
            0 <= i <= lines@.len(),
            views_of(lines@) == lviews,
            pattern@ == port_pattern_spec(port),
            pids@ == collect_pids(lviews.take(i as int), pattern@),
        decreases lines@.len() - i,
    {
        let line = lines[i].as_str();
        proof {
            assert(views_of(lines@)[i as int] == lines@[i as int]@);
            assert(lviews.take(i + 1).drop_last() =~= lviews.take(i as int));
            assert(lviews.take(i + 1).last() == lviews[i as int]);
        }
        if contains_chars(line, &pattern) {
            let token = last_token_str(line);
            match parse_u32(token.as_str()) {
                Some(pid) => {
                    if pid > 0 {
                        pids.push(pid);
                        assert(pids@ =~= collect_pids(lviews.take(i + 1), pattern@));
                    } else {
                        assert(pids@ =~= collect_pids(lviews.take(i + 1), pattern@));
                    }
                },
                None => {
                    assert(pids@ =~= collect_pids(lviews.take(i + 1), pattern@));
                },
            }
        } else {
            assert(pids@ =~= collect_pids(lviews.take(i + 1), pattern@));
        }
        i = i + 1;
    }
    assert(lviews.take(lines@.len() as int) =~= lviews);
    pids
}

} // verus!
