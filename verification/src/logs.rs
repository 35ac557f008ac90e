//! Log collection core: a bounded ring buffer of parsed log entries and
//! case-insensitive filtering over them. Gathering raw lines from the
//! host is the caller's business; this module owns what is kept and
//! what a filter returns.

use std::collections::VecDeque;

use vstd::prelude::*;
use vstd::string::StrSliceExecFns;
use vstd::string::StringExecFns;

use crate::snapshot::{LogEntry, LogEntryView};

verus! {

impl Clone for LogEntry {
    /// An exact copy of the entry.
    fn clone(&self) -> (r: Self)
        ensures
            r == *self,
    {
        LogEntry {
            timestamp: self.timestamp.clone(),
            level: self.level.clone(),
            service: self.service.clone(),
            message: self.message.clone(),
        }
    }
}

/// Unicode lowercasing of a character sequence, exactly as
/// `str::to_lowercase` computes it: a function of the characters alone.
pub uninterp spec fn lower_of(s: Seq<char>) -> Seq<char>;

/// Whether `needle` occurs as a contiguous run inside `hay`.
pub open spec fn contains_seq(hay: Seq<char>, needle: Seq<char>) -> bool {
    exists|i: int|
        0 <= i <= hay.len() - needle.len() && #[trigger] hay.subrange(i, i + needle.len())
            == needle
}

/// Relies on `str::to_lowercase`: returns the lowercase equivalent of
/// the string, a function of its characters alone.
#[verifier::external_body]
fn to_lowercase_str(s: &str) -> (r: String)
    ensures
        r@ == lower_of(s@),
{
    s.to_lowercase()
}

/// Relies on `str::contains` with a string pattern: true exactly when
/// the pattern occurs as a substring. Byte-level and character-level
/// substring agree here, since a valid UTF-8 sequence never matches at
/// a byte offset inside a multi-byte character.
#[verifier::external_body]
fn str_contains(hay: &str, needle: &str) -> (r: bool)
    ensures
        r == contains_seq(hay@, needle@),
{
    hay.contains(needle)
}

/// Whether two characters are equal up to ASCII case.
pub open spec fn ascii_eq_char(a: char, b: char) -> bool {
    a == b || (is_ascii_upper(a) && a as int + 32 == b as int) || (is_ascii_upper(b) && b as int
        + 32 == a as int)
}

/// Whether the character is an ASCII capital letter.
pub open spec fn is_ascii_upper(c: char) -> bool {
    65 <= c as int <= 90
}

/// Whether two character sequences are equal up to ASCII case.
pub open spec fn ascii_eq(a: Seq<char>, b: Seq<char>) -> bool {
    a.len() == b.len() && forall|i: int| 0 <= i < a.len() ==> ascii_eq_char(
        #[trigger] a[i],
        b[i],
    )
}

/// Whether two characters match up to ASCII case.
fn char_eq_fold(x: char, y: char) -> (r: bool)
    ensures
        r == ascii_eq_char(x, y),
{
    let xu = x as u32;
    let yu = y as u32;
    x == y || (65 <= xu && xu <= 90 && xu + 32 == yu) || (65 <= yu && yu <= 90 && yu + 32 == xu)
}

/// Whether two strings match up to ASCII case.
fn str_eq_ignore_case(a: &str, b: &str) -> (r: bool)
    ensures
        r == ascii_eq(a@, b@),
{
    let n = a.unicode_len();
    if n != b.unicode_len() {
        return false;
    }
    let mut i: usize = 0;
    while i < n
        invariant
            0 <= i <= n,
            n == a@.len(),
            n == b@.len(),
            forall|k: int| 0 <= k < i ==> ascii_eq_char(#[trigger] a@[k], b@[k]),
        decreases n - i,
    {
        if !char_eq_fold(a.get_char(i), b.get_char(i)) {
            return false;
        }
        i += 1;
    }
    true
}

/// Whether the entry matches a filter query already folded to lower
/// case: the query occurs in the lowercased message, service, or level.
pub open spec fn matches_query(e: LogEntryView, q: Seq<char>) -> bool {
    contains_seq(lower_of(e.message), q) || contains_seq(lower_of(e.service), q) || contains_seq(
        lower_of(e.level),
        q,
    )
}

/// The buffer after appending the given entries under the ring
/// discipline: before each append, a buffer already at or over `cap`
/// drops its oldest entry.
pub open spec fn ring_append(
    buf: Seq<LogEntryView>,
    entries: Seq<LogEntryView>,
    cap: int,
) -> Seq<LogEntryView>
    decreases entries.len(),
{
    if entries.len() == 0 {
        buf
    } else {
        let trimmed = if buf.len() >= cap && buf.len() > 0 {
            buf.skip(1)
        } else {
            buf
        };
        ring_append(trimmed.push(entries[0]), entries.skip(1), cap)
    }
}

/// View of a deque of log entries.
pub open spec fn entries_view(v: Seq<LogEntry>) -> Seq<LogEntryView> {
    v.map_values(|e: LogEntry| e@)
}

/// Mathematical image of [`LogCollector`].
#[verifier::ext_equal]
pub struct LogCollectorView {
    pub buffer: Seq<LogEntryView>,
    pub buffer_size: usize,
    pub services: Seq<Seq<char>>,
}

/// A bounded ring buffer of log entries with case-insensitive filters.
/// The service names configure which units the host should be asked
/// about; the collector itself never performs I/O.
pub struct LogCollector {
    buffer: VecDeque<LogEntry>,
    buffer_size: usize,
    services: Vec<String>,
}

impl View for LogCollector {
    type V = LogCollectorView;

    closed spec fn view(&self) -> LogCollectorView {
        LogCollectorView {
            buffer: entries_view(self.buffer@),
            buffer_size: self.buffer_size,
            services: self.services@.map_values(|s: String| s@),
        }
    }
}

/// The default set of services whose logs are collected.
pub open spec fn default_service_names() -> Seq<Seq<char>> {
    seq![
        "k3s"@,
        "k3s-agent"@,
        "kubelet"@,
        "containerd"@,
        "virt-handler"@,
        "virt-launcher"@,
        "docker"@,
    ]
}

/// Splitting off one more entry extends the query selection exactly
/// when the entry matches.
proof fn lemma_matches_query_snoc(s: Seq<LogEntryView>, x: LogEntryView, q: Seq<char>)
    ensures
        s.push(x).filter(|e: LogEntryView| matches_query(e, q)) == if matches_query(x, q) {
            s.filter(|e: LogEntryView| matches_query(e, q)).push(x)
        } else {
            s.filter(|e: LogEntryView| matches_query(e, q))
        },
{
    reveal_with_fuel(Seq::<LogEntryView>::filter, 2);
    assert(s.push(x).drop_last() =~= s);
    assert(s.push(x).last() == x);
}

/// Splitting off one more entry extends the level selection exactly
/// when the entry's level matches up to ASCII case.
proof fn lemma_level_filter_snoc(s: Seq<LogEntryView>, x: LogEntryView, level: Seq<char>)
    ensures
        s.push(x).filter(|e: LogEntryView| ascii_eq(e.level, level)) == if ascii_eq(
            x.level,
            level,
        ) {
            s.filter(|e: LogEntryView| ascii_eq(e.level, level)).push(x)
        } else {
            s.filter(|e: LogEntryView| ascii_eq(e.level, level))
        },
{
    reveal_with_fuel(Seq::<LogEntryView>::filter, 2);
    assert(s.push(x).drop_last() =~= s);
    assert(s.push(x).last() == x);
}

impl LogCollector {
    /// A collector with an empty buffer of capacity 1000 watching the
    /// default services.
    pub fn new() -> (r: Self)
        ensures
            r@.buffer == Seq::<LogEntryView>::empty(),
            r@.buffer_size == 1000,
            r@.services == default_service_names(),
    {
        let mut services: Vec<String> = Vec::new();
        services.push(String::from_str("k3s"));
        services.push(String::from_str("k3s-agent"));
        services.push(String::from_str("kubelet"));
        services.push(String::from_str("containerd"));
        services.push(String::from_str("virt-handler"));
        services.push(String::from_str("virt-launcher"));
        services.push(String::from_str("docker"));
        let r = LogCollector {
            buffer: VecDeque::with_capacity(1000),
            buffer_size: 1000,
            services,
        };
        proof {
            assert(r@.buffer =~= Seq::<LogEntryView>::empty());
            assert(r@.services =~= default_service_names());
        }
        r
    }

    /// Replaces the watched services.
    pub fn with_services(self, services: Vec<String>) -> (r: Self)
        ensures
            r@ == (LogCollectorView {
                services: services@.map_values(|s: String| s@),
                ..self@
            }),
    {
        let mut c = self;
        c.services = services;
        proof {
            assert(c@ =~~= (LogCollectorView {
                services: c@.services,
                ..self@
            }));
        }
        c
    }

    /// Replaces the buffer capacity; already-buffered entries stay.
    pub fn with_buffer_size(self, size: usize) -> (r: Self)
        ensures
            r@ == (LogCollectorView { buffer_size: size, ..self@ }),
    {
        let mut c = self;
        c.buffer_size = size;
        c.buffer.reserve(size);
        proof {
            assert(c@ =~~= (LogCollectorView { buffer_size: size, ..self@ }));
        }
        c
    }

    /// The watched service names.
    pub fn services(&self) -> (r: &Vec<String>)
        ensures
            r@.map_values(|s: String| s@) == self@.services,
    {
        &self.services
    }

    /// The buffer capacity.
    pub fn capacity(&self) -> (r: usize)
        ensures
            r == self@.buffer_size,
    {
        self.buffer_size
    }

    /// Appends freshly collected entries to the ring buffer, dropping
    /// the oldest entries once the capacity is reached.
    pub fn absorb(&mut self, entries: Vec<LogEntry>)
        ensures
            final(self)@ == (LogCollectorView {
                buffer: ring_append(
                    old(self)@.buffer,
                    entries_view(entries@),
                    old(self)@.buffer_size as int,
                ),
                ..old(self)@
            }),
    {
        let ghost logs0 = entries_view(entries@);
        let ghost cap = old(self)@.buffer_size as int;
        let mut rest = entries;
        while rest.len() > 0
            invariant
                self@ =~~= (LogCollectorView { buffer: self@.buffer, ..old(self)@ }),
                cap == old(self)@.buffer_size as int,
                ring_append(self@.buffer, entries_view(rest@), cap) == ring_append(
                    old(self)@.buffer,
                    logs0,
                    cap,
                ),
            decreases rest@.len(),
        {
            let ghost buf0 = self@.buffer;
            let ghost rest0 = entries_view(rest@);
            let e = rest.remove(0);
            proof {
                assert(rest0[0] == e@);
                assert forall|k: int| 0 <= k < rest@.len() implies entries_view(rest@)[k]
                    == rest0.skip(1)[k] by {
                    assert(rest@[k]@ == rest0[k + 1]);
                }
            }
            if self.buffer.len() >= self.buffer_size {
                self.buffer.pop_front();
            }
            self.buffer.push_back(e);
            proof {
                let trimmed = if buf0.len() >= cap && buf0.len() > 0 {
                    buf0.skip(1)
                } else {
                    buf0
                };
                assert(self@.buffer =~= trimmed.push(rest0[0]));
                assert(entries_view(rest@) =~= rest0.skip(1));
                assert(ring_append(buf0, rest0, cap) == ring_append(
                    trimmed.push(rest0[0]),
                    rest0.skip(1),
                    cap,
                ));
            }
        }
        proof {
            assert(entries_view(rest@) =~= Seq::<LogEntryView>::empty());
            assert(ring_append(self@.buffer, Seq::<LogEntryView>::empty(), cap) == self@.buffer);
            assert(self@ =~~= (LogCollectorView {
                buffer: ring_append(old(self)@.buffer, logs0, cap),
                ..old(self)@
            }));
        }
    }

    /// The buffered entries, oldest first.
    pub fn snapshot(&self) -> (r: Vec<LogEntry>)
        ensures
            entries_view(r@) == self@.buffer,
    {
        let ghost buf = self@.buffer;
        let mut out: Vec<LogEntry> = Vec::new();
        let n = self.buffer.len();
        let mut i: usize = 0;
        while i < n
            invariant
                0 <= i <= n,
                n == self.buffer@.len(),
                buf == self@.buffer,
                entries_view(out@) =~= buf.take(i as int),
            decreases n - i,
        {
            let ghost out0 = out@;
            out.push(self.buffer[i].clone());
            proof {
                assert(entries_view(out@) =~= entries_view(out0).push(buf[i as int]));
                assert(buf.take(i + 1) =~= buf.take(i as int).push(buf[i as int]));
            }
            i += 1;
        }
        proof {
            assert(buf.take(n as int) =~= buf);
        }
        out
    }

    /// The buffered entries whose lowercased message, service, or level
    /// contains the lowercased query, oldest first.
    pub fn filter(&self, query: &str) -> (r: Vec<LogEntry>)
        ensures
            entries_view(r@) == self@.buffer.filter(
                |e: LogEntryView| matches_query(e, lower_of(query@)),
            ),
    {
        let ghost buf = self@.buffer;
        let ghost q = lower_of(query@);
        let query_lower = to_lowercase_str(query);
        let mut out: Vec<LogEntry> = Vec::new();
        let n = self.buffer.len();
        proof {
            assert(buf.take(0) =~= Seq::<LogEntryView>::empty());
            assert(entries_view(out@) =~= buf.take(0).filter(
                |e: LogEntryView| matches_query(e, q),
            ));
        }
        let mut i: usize = 0;
        while i < n
            invariant
                0 <= i <= n,
                n == self.buffer@.len(),
                buf == self@.buffer,
                q == lower_of(query@),
                query_lower@ == q,
                entries_view(out@) == buf.take(i as int).filter(
                    |e: LogEntryView| matches_query(e, q),
                ),
            decreases n - i,
        {
            let e = &self.buffer[i];
            let lowered_message = to_lowercase_str(e.message.as_str());
            let lowered_service = to_lowercase_str(e.service.as_str());
            let lowered_level = to_lowercase_str(e.level.as_str());
            let hit = str_contains(lowered_message.as_str(), query_lower.as_str())
                || str_contains(lowered_service.as_str(), query_lower.as_str())
                || str_contains(lowered_level.as_str(), query_lower.as_str());
            proof {
                assert(e@ == buf[i as int]);
                assert(hit == matches_query(buf[i as int], q));
                assert(buf.take(i + 1) =~= buf.take(i as int).push(buf[i as int]));
                lemma_matches_query_snoc(buf.take(i as int), buf[i as int], q);
            }
            if hit {
                let ghost out0 = out@;
                out.push(e.clone());
                proof {
                    assert(entries_view(out@) =~= entries_view(out0).push(buf[i as int]));
                    assert(entries_view(out@) =~= buf.take(i + 1).filter(
                        |e: LogEntryView| matches_query(e, q),
                    ));
                }
            } else {
                proof {
                    assert(entries_view(out@) =~= buf.take(i + 1).filter(
                        |e: LogEntryView| matches_query(e, q),
                    ));
                }
            }
            i += 1;
        }
        proof {
            assert(buf.take(n as int) =~= buf);
        }
        out
    }

    /// The buffered entries whose level equals `level` up to ASCII
    /// case, oldest first.
    pub fn filter_by_level(&self, level: &str) -> (r: Vec<LogEntry>)
        ensures
            entries_view(r@) == self@.buffer.filter(
                |e: LogEntryView| ascii_eq(e.level, level@),
            ),
    {
        let ghost buf = self@.buffer;
        let mut out: Vec<LogEntry> = Vec::new();
        let n = self.buffer.len();
        proof {
            assert(buf.take(0) =~= Seq::<LogEntryView>::empty());
            assert(entries_view(out@) =~= buf.take(0).filter(
                |e: LogEntryView| ascii_eq(e.level, level@),
            ));
        }
        let mut i: usize = 0;
        while i < n
            invariant
                0 <= i <= n,
                n == self.buffer@.len(),
                buf == self@.buffer,
                entries_view(out@) == buf.take(i as int).filter(
                    |e: LogEntryView| ascii_eq(e.level, level@),
                ),
            decreases n - i,
        {
            let e = &self.buffer[i];
            let hit = str_eq_ignore_case(e.level.as_str(), level);
            proof {
                assert(e@ == buf[i as int]);
                assert(buf.take(i + 1) =~= buf.take(i as int).push(buf[i as int]));
                lemma_level_filter_snoc(buf.take(i as int), buf[i as int], level@);
            }
            if hit {
                let ghost out0 = out@;
                out.push(e.clone());
                proof {
                    assert(entries_view(out@) =~= entries_view(out0).push(buf[i as int]));
                    assert(entries_view(out@) =~= buf.take(i + 1).filter(
                        |e: LogEntryView| ascii_eq(e.level, level@),
                    ));
                }
            } else {
                proof {
                    assert(entries_view(out@) =~= buf.take(i + 1).filter(
                        |e: LogEntryView| ascii_eq(e.level, level@),
                    ));
                }
            }
            i += 1;
        }
        proof {
            assert(buf.take(n as int) =~= buf);
        }
        out
    }
}

} // verus!
