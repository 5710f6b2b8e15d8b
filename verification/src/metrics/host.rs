//! Figures that the kernel gives as text.
use crate::text::{
    bounded_value, char_lists, chars_of, copy_range, decimal, find_first, first_at, has_at,
    is_digit, law_bounded_numbers_are_taken, law_numbers_read_back, law_places_are_found, lines,
    occurs_at, parse_bounded, split_lines, split_words, starts_with, trim, trimmed, words,
};
use vstd::prelude::*;

verus! {

#[derive(Clone, Copy, Debug, PartialEq, Eq, Structural)]
pub struct ProcessStatus {
    pub rss_bytes: u64,
    pub virtual_bytes: u64,
    pub threads: u64,
}

#[derive(Clone, Copy, Debug, PartialEq, Eq, Structural)]
pub struct MemInfo {
    pub total_bytes: u64,
    pub available_bytes: u64,
}

/// How long a process ran and when it started, in ticks of the clock.
#[derive(Clone, Copy, Debug, PartialEq, Eq, Structural)]
pub struct ProcessTicks {
    pub user: u64,
    pub system: u64,
    pub start: u64,
}

/// The bytes of a figure in KiB: the first word of a text.
pub open spec fn kib_value(s: Seq<char>) -> Option<u64> {
    if words(s).len() == 0 {
        None
    } else {
        match bounded_value(words(s)[0], u64::MAX) {
            None => None,
            Some(kib) => Some(
                if kib * 1024 <= u64::MAX {
                    (kib * 1024) as u64
                } else {
                    u64::MAX
                },
            ),
        }
    }
}

/// The bytes of a figure in KiB.
pub fn parse_kib_line(chars: &[char]) -> (bytes: Option<u64>)
    ensures
        bytes == kib_value(chars@),
{
    let list = split_words(chars);
    assert(char_lists(list@).len() == list@.len());
    if list.len() == 0 {
        return None;
    }
    assert(char_lists(list@)[0] == list@[0]@);
    match parse_bounded(list[0].as_slice(), u64::MAX) {
        None => None,
        Some(kib) => if kib <= 18_014_398_509_481_983 {
            Some(kib * 1024)
        } else {
            Some(u64::MAX)
        },
    }
}

/// What stands behind a prefix in the last line that begins with it.
pub open spec fn last_behind(all: Seq<Seq<char>>, prefix: Seq<char>) -> Option<Seq<char>>
    decreases all.len(),
{
    if all.len() == 0 {
        None
    } else if starts_with(all.last(), prefix) {
        Some(all.last().skip(prefix.len() as int))
    } else {
        last_behind(all.drop_last(), prefix)
    }
}

/// What stands behind a prefix in the first line that begins with it.
pub open spec fn first_behind(all: Seq<Seq<char>>, prefix: Seq<char>) -> Option<Seq<char>>
    decreases all.len(),
{
    if all.len() == 0 {
        None
    } else if starts_with(all[0], prefix) {
        Some(all[0].skip(prefix.len() as int))
    } else {
        first_behind(all.skip(1), prefix)
    }
}

fn strip_prefix(chars: &[char], prefix: &[char]) -> (rest: Option<Vec<char>>)
    ensures
        match rest {
            Some(rest) => starts_with(chars@, prefix@) && rest@ == chars@.skip(
                prefix@.len() as int,
            ),
            None => !starts_with(chars@, prefix@),
        },
{
    assert(chars@.skip(0) =~= chars@);
    if has_at(chars, 0, prefix) {
        let rest = copy_range(chars, prefix.len(), chars.len());
        assert(rest@ =~= chars@.skip(prefix@.len() as int));
        Some(rest)
    } else {
        None
    }
}

fn find_last_behind(all: &[Vec<char>], prefix: &str) -> (rest: Option<Vec<char>>)
    ensures
        match rest {
            Some(rest) => last_behind(char_lists(all@), prefix@) == Some(rest@),
            None => last_behind(char_lists(all@), prefix@) is None,
        },
{
    let wanted = chars_of(prefix);
    let ghost views = char_lists(all@);
    let mut i: usize = all.len();
    assert(views.take(i as int) =~= views);
    while i > 0
        invariant
            i <= all.len(),
            wanted@ == prefix@,
            views == char_lists(all@),
            last_behind(views, prefix@) == last_behind(views.take(i as int), prefix@),
        decreases i,
    {
        assert(views.take(i as int).drop_last() =~= views.take(i - 1));
        assert(views.take(i as int).last() == all@[i - 1]@);
        i -= 1;
        if let Some(rest) = strip_prefix(all[i].as_slice(), wanted.as_slice()) {
            return Some(rest);
        }
    }
    None
}

fn find_first_behind(all: &[Vec<char>], prefix: &str) -> (rest: Option<Vec<char>>)
    ensures
        match rest {
            Some(rest) => first_behind(char_lists(all@), prefix@) == Some(rest@),
            None => first_behind(char_lists(all@), prefix@) is None,
        },
{
    let wanted = chars_of(prefix);
    let ghost views = char_lists(all@);
    let mut i: usize = 0;
    assert(views.skip(0) =~= views);
    while i < all.len()
        invariant
            i <= all.len(),
            wanted@ == prefix@,
            views == char_lists(all@),
            first_behind(views, prefix@) == first_behind(views.skip(i as int), prefix@),
        decreases all.len() - i,
    {
        assert(views.skip(i as int)[0] == all@[i as int]@);
        assert(views.skip(i as int).skip(1) =~= views.skip(i + 1));
        if let Some(rest) = strip_prefix(all[i].as_slice(), wanted.as_slice()) {
            return Some(rest);
        }
        i += 1;
    }
    None
}

/// The number of a text without the white space around it.
pub open spec fn trimmed_number(s: Seq<char>) -> Option<u64> {
    bounded_value(trimmed(s), u64::MAX)
}

/// Memory and threads of a process, from `/proc/self/status`. Where a line is there
/// twice, the last one counts.
pub open spec fn status_value(text: Seq<char>) -> Option<ProcessStatus> {
    let all = lines(text);
    let rss = match last_behind(all, "VmRSS:"@) {
        Some(rest) => kib_value(rest),
        None => None,
    };
    let size = match last_behind(all, "VmSize:"@) {
        Some(rest) => kib_value(rest),
        None => None,
    };
    let threads = match last_behind(all, "Threads:"@) {
        Some(rest) => trimmed_number(rest),
        None => None,
    };
    match (rss, size, threads) {
        (Some(rss_bytes), Some(virtual_bytes), Some(threads)) => Some(
            ProcessStatus { rss_bytes, virtual_bytes, threads },
        ),
        _ => None,
    }
}

fn number_of(chars: &[char]) -> (n: Option<u64>)
    ensures
        n == trimmed_number(chars@),
{
    let kept = trim(chars);
    parse_bounded(kept.as_slice(), u64::MAX)
}

/// Memory and threads of a process, from `/proc/self/status`.
pub fn parse_process_status(text: &str) -> (status: Option<ProcessStatus>)
    ensures
        status == status_value(text@),
{
    let chars = chars_of(text);
    let all = split_lines(chars.as_slice());
    let rss = match find_last_behind(all.as_slice(), "VmRSS:") {
        Some(rest) => parse_kib_line(rest.as_slice()),
        None => None,
    };
    let size = match find_last_behind(all.as_slice(), "VmSize:") {
        Some(rest) => parse_kib_line(rest.as_slice()),
        None => None,
    };
    let threads = match find_last_behind(all.as_slice(), "Threads:") {
        Some(rest) => number_of(rest.as_slice()),
        None => None,
    };
    match (rss, size, threads) {
        (Some(rss_bytes), Some(virtual_bytes), Some(threads)) => Some(
            ProcessStatus { rss_bytes, virtual_bytes, threads },
        ),
        _ => None,
    }
}

/// The last figure in KiB under a key: lines are a key, a colon and a value.
pub open spec fn keyed_kib(all: Seq<Seq<char>>, key: Seq<char>) -> Option<u64>
    decreases all.len(),
{
    if all.len() == 0 {
        None
    } else {
        let line = all.last();
        match first_at(line, ':') {
            None => keyed_kib(all.drop_last(), key),
            Some(at) => if line.take(at) == key && kib_value(line.skip(at + 1)) is Some {
                kib_value(line.skip(at + 1))
            } else {
                keyed_kib(all.drop_last(), key)
            },
        }
    }
}

/// Whether every line has a colon.
pub open spec fn all_keyed(all: Seq<Seq<char>>) -> bool {
    forall|i: int| 0 <= i < all.len() ==> first_at(#[trigger] all[i], ':') is Some
}

/// Memory of the host, from `/proc/meminfo`. A line without a colon spoils all.
pub open spec fn meminfo_value(text: Seq<char>) -> Option<MemInfo> {
    let all = lines(text);
    if !all_keyed(all) {
        None
    } else {
        match (keyed_kib(all, "MemTotal"@), keyed_kib(all, "MemAvailable"@)) {
            (Some(total_bytes), Some(available_bytes)) => Some(
                MemInfo { total_bytes, available_bytes },
            ),
            _ => None,
        }
    }
}

fn every_line_keyed(all: &[Vec<char>]) -> (b: bool)
    ensures
        b == all_keyed(char_lists(all@)),
{
    let ghost views = char_lists(all@);
    let mut i: usize = 0;
    while i < all.len()
        invariant
            i <= all.len(),
            views == char_lists(all@),
            forall|j: int| 0 <= j < i ==> first_at(#[trigger] views[j], ':') is Some,
        decreases all.len() - i,
    {
        assert(views[i as int] == all@[i as int]@);
        if find_first(all[i].as_slice(), ':').is_none() {
            assert(first_at(views[i as int], ':') is None);
            return false;
        }
        i += 1;
    }
    true
}

fn same_chars(a: &[char], b: &[char]) -> (same: bool)
    ensures
        same == (a@ == b@),
{
    if a.len() != b.len() {
        return false;
    }
    let mut i: usize = 0;
    while i < a.len()
        invariant
            i <= a.len(),
            a.len() == b.len(),
            forall|j: int| 0 <= j < i ==> a@[j] == b@[j],
        decreases a.len() - i,
    {
        if a[i] != b[i] {
            return false;
        }
        i += 1;
    }
    assert(a@ =~= b@);
    true
}

fn find_keyed_kib(all: &[Vec<char>], key: &str) -> (bytes: Option<u64>)
    ensures
        bytes == keyed_kib(char_lists(all@), key@),
{
    let wanted = chars_of(key);
    let ghost views = char_lists(all@);
    let mut i: usize = all.len();
    assert(views.take(i as int) =~= views);
    while i > 0
        invariant
            i <= all.len(),
            wanted@ == key@,
            views == char_lists(all@),
            keyed_kib(views, key@) == keyed_kib(views.take(i as int), key@),
        decreases i,
    {
        assert(views.take(i as int).drop_last() =~= views.take(i - 1));
        assert(views.take(i as int).last() == all@[i - 1]@);
        i -= 1;
        let line = all[i].as_slice();
        if let Some(at) = find_first(line, ':') {
            let head = copy_range(line, 0, at);
            assert(head@ =~= line@.take(at as int));
            let tail = copy_range(line, at + 1, line.len());
            assert(tail@ =~= line@.skip(at + 1));
            if same_chars(head.as_slice(), wanted.as_slice()) {
                if let Some(bytes) = parse_kib_line(tail.as_slice()) {
                    return Some(bytes);
                }
            }
        }
    }
    None
}

/// Memory of the host, from `/proc/meminfo`.
pub fn parse_meminfo(text: &str) -> (mem: Option<MemInfo>)
    ensures
        mem == meminfo_value(text@),
{
    let chars = chars_of(text);
    let all = split_lines(chars.as_slice());
    if !every_line_keyed(all.as_slice()) {
        return None;
    }
    match (find_keyed_kib(all.as_slice(), "MemTotal"), find_keyed_kib(
        all.as_slice(),
        "MemAvailable",
    )) {
        (Some(total_bytes), Some(available_bytes)) => Some(
            MemInfo { total_bytes, available_bytes },
        ),
        _ => None,
    }
}

/// Whether a line is of one core.
pub open spec fn is_core_line(line: Seq<char>) -> bool {
    starts_with(line, "cpu"@) && line.len() > "cpu"@.len() && is_digit(line["cpu"@.len() as int])
}

/// How many lines are of one core.
pub open spec fn core_count(all: Seq<Seq<char>>) -> nat
    decreases all.len(),
{
    if all.len() == 0 {
        0
    } else {
        core_count(all.drop_last()) + if is_core_line(all.last()) {
            1nat
        } else {
            0nat
        }
    }
}

/// The cores of the host, from `/proc/stat`; none where there is no line of one.
pub fn parse_cpu_cores(text: &str) -> (cores: Option<u64>)
    ensures
        cores == if core_count(lines(text@)) == 0 {
            None
        } else {
            Some(core_count(lines(text@)) as u64)
        },
{
    let chars = chars_of(text);
    let all = split_lines(chars.as_slice());
    let wanted = chars_of("cpu");
    let ghost views = char_lists(all@);
    let mut count: usize = 0;
    let mut i: usize = 0;
    while i < all.len()
        invariant
            i <= all.len(),
            wanted@ == "cpu"@,
            views == char_lists(all@),
            count == core_count(views.take(i as int)),
            count <= i,
        decreases all.len() - i,
    {
        assert(views.take(i + 1).drop_last() =~= views.take(i as int));
        assert(views.take(i + 1).last() == all@[i as int]@);
        if let Some(rest) = strip_prefix(all[i].as_slice(), wanted.as_slice()) {
            if rest.len() > 0 {
                assert(rest@[0] == all@[i as int]@["cpu"@.len() as int]);
                if rest[0] >= '0' && rest[0] <= '9' {
                    count += 1;
                }
            }
        }
        i += 1;
    }
    assert(views.take(views.len() as int) =~= views);
    if count == 0 {
        None
    } else {
        Some(count as u64)
    }
}

/// When the host started, from `/proc/stat`; 0 where it does not say.
pub fn parse_boot_time(text: &str) -> (secs: u64)
    ensures
        secs == (match first_behind(lines(text@), "btime "@) {
            None => 0,
            Some(rest) => match trimmed_number(rest) {
                Some(secs) => secs,
                None => 0,
            },
        }),
{
    let chars = chars_of(text);
    let all = split_lines(chars.as_slice());
    match find_first_behind(all.as_slice(), "btime ") {
        None => 0,
        Some(rest) => match number_of(rest.as_slice()) {
            Some(secs) => secs,
            None => 0,
        },
    }
}

/// The last place of a text in another.
pub open spec fn last_place(s: Seq<char>, needle: Seq<char>, end: int) -> Option<int>
    decreases end + 1,
{
    if end < 0 {
        None
    } else if occurs_at(s, needle, end) {
        Some(end)
    } else {
        last_place(s, needle, end - 1)
    }
}

/// How long a process ran and when it started, from `/proc/self/stat`: fields are
/// counted behind the name of the program, which ends with the last `) `.
pub open spec fn stat_value(text: Seq<char>) -> Option<ProcessTicks> {
    match last_place(text, ") "@, text.len() as int) {
        None => None,
        Some(at) => {
            let fields = words(text.skip(at + ") "@.len()));
            if fields.len() < 20 {
                None
            } else {
                match (
                    bounded_value(fields[11], u64::MAX),
                    bounded_value(fields[12], u64::MAX),
                    bounded_value(fields[19], u64::MAX),
                ) {
                    (Some(user), Some(system), Some(start)) => Some(
                        ProcessTicks { user, system, start },
                    ),
                    _ => None,
                }
            }
        },
    }
}

fn find_last_place(chars: &[char], needle: &[char]) -> (at: Option<usize>)
    ensures
        match at {
            Some(i) => last_place(chars@, needle@, chars@.len() as int) == Some(i as int) && i
                + needle.len() <= chars.len(),
            None => last_place(chars@, needle@, chars@.len() as int) is None,
        },
{
    let mut end: usize = chars.len();
    loop
        invariant
            end <= chars.len(),
            last_place(chars@, needle@, chars@.len() as int) == last_place(
                chars@,
                needle@,
                end as int,
            ),
        decreases end,
    {
        if has_at(chars, end, needle) {
            return Some(end);
        }
        if end == 0 {
            assert(last_place(chars@, needle@, -1) is None);
            return None;
        }
        end -= 1;
    }
}

/// How long a process ran and when it started, from `/proc/self/stat`.
pub fn parse_process_stat(text: &str) -> (ticks: Option<ProcessTicks>)
    ensures
        ticks == stat_value(text@),
{
    let chars = chars_of(text);
    let mark = chars_of(") ");
    let at = match find_last_place(chars.as_slice(), mark.as_slice()) {
        None => {
            return None;
        },
        Some(at) => at,
    };
    let rest = copy_range(chars.as_slice(), at + mark.len(), chars.len());
    assert(rest@ =~= text@.skip(at + ") "@.len()));
    let fields = split_words(rest.as_slice());
    assert(char_lists(fields@).len() == fields@.len());
    if fields.len() < 20 {
        return None;
    }
    assert(char_lists(fields@)[11] == fields@[11]@);
    assert(char_lists(fields@)[12] == fields@[12]@);
    assert(char_lists(fields@)[19] == fields@[19]@);
    match (
        parse_bounded(fields[11].as_slice(), u64::MAX),
        parse_bounded(fields[12].as_slice(), u64::MAX),
        parse_bounded(fields[19].as_slice(), u64::MAX),
    ) {
        (Some(user), Some(system), Some(start)) => Some(ProcessTicks { user, system, start }),
        _ => None,
    }
}

// ---------------------------------------------------------------------------
// Laws
// ---------------------------------------------------------------------------

/// A figure in KiB is the first word of its text, and counts 1024 bytes each.
pub proof fn law_kib_are_1024_bytes(s: Seq<char>, n: nat)
    requires
        words(s).len() > 0,
        words(s)[0] == decimal(n),
        n <= u64::MAX,
    ensures
        1024 * n <= u64::MAX ==> kib_value(s) == Some((1024 * n) as u64),
        1024 * n > u64::MAX ==> kib_value(s) == Some(u64::MAX),
{
    law_bounded_numbers_are_taken(n, u64::MAX);
}

/// Of the lines that begin with a prefix the last one, or the first one, is taken, without
/// the prefix.
pub proof fn law_lines_are_found_by_prefix(
    all: Seq<Seq<char>>,
    prefix: Seq<char>,
    rest: Seq<char>,
    i: int,
)
    requires
        0 <= i < all.len(),
        all[i] == prefix + rest,
    ensures
        (forall|k: int| i < k < all.len() ==> !starts_with(#[trigger] all[k], prefix))
            ==> last_behind(all, prefix) == Some(rest),
        (forall|k: int| 0 <= k < i ==> !starts_with(#[trigger] all[k], prefix)) ==> first_behind(
            all,
            prefix,
        ) == Some(rest),
    decreases all.len(),
{
    assert(all[i].take(prefix.len() as int) =~= prefix);
    assert(all[i].skip(prefix.len() as int) =~= rest);
    let front = all.drop_last();
    let behind = all.skip(1);
    assert(all[all.len() - 1] == all.last());
    if i < all.len() - 1 {
        assert(front[i] == all[i]);
        law_lines_are_found_by_prefix(front, prefix, rest, i);
        assert(forall|k: int| i < k < front.len() ==> #[trigger] front[k] == all[k]);
    }
    if i > 0 {
        assert(behind[i - 1] == all[i]);
        law_lines_are_found_by_prefix(behind, prefix, rest, i - 1);
        assert(forall|k: int| 0 <= k < behind.len() ==> #[trigger] behind[k] == all[k + 1]);
    }
}

/// What a process takes is read from its lines of resident and virtual memory and of threads;
/// without one of them nothing is known.
pub proof fn law_process_lines_are_read(text: Seq<char>)
    ensures
        ({
            let all = lines(text);
            let rss = last_behind(all, "VmRSS:"@);
            let size = last_behind(all, "VmSize:"@);
            let threads = last_behind(all, "Threads:"@);
            &&& rss is None || size is None || threads is None ==> status_value(text) is None
            &&& status_value(text) matches Some(status) ==> kib_value(rss->Some_0) == Some(
                status.rss_bytes,
            ) && kib_value(size->Some_0) == Some(status.virtual_bytes) && bounded_value(
                trimmed(threads->Some_0),
                u64::MAX,
            ) == Some(status.threads)
            &&& rss is Some && size is Some && threads is Some && kib_value(rss->Some_0) is Some
                && kib_value(size->Some_0) is Some && bounded_value(
                trimmed(threads->Some_0),
                u64::MAX,
            ) is Some ==> status_value(text) is Some
        }),
{
}

/// The memory of a host is read from its lines of total and available memory.
pub proof fn law_memory_lines_are_read(text: Seq<char>)
    ensures
        ({
            let all = lines(text);
            let total = keyed_kib(all, "MemTotal"@);
            let available = keyed_kib(all, "MemAvailable"@);
            &&& !all_keyed(all) ==> meminfo_value(text) is None
            &&& total is None || available is None ==> meminfo_value(text) is None
            &&& all_keyed(all) && total is Some && available is Some ==> (meminfo_value(
                text,
            ) matches Some(mem) && total == Some(mem.total_bytes) && available == Some(
                mem.available_bytes,
            ))
        }),
{
}

/// The figure of a key stands behind the first colon of its line; the last such line counts.
pub proof fn law_keys_stand_before_colons(
    all: Seq<Seq<char>>,
    key: Seq<char>,
    rest: Seq<char>,
)
    requires
        !key.contains(':'),
        kib_value(rest) is Some,
    ensures
        keyed_kib(all.push(key + ":"@ + rest), key) == kib_value(rest),
{
    reveal_strlit(":");
    let line = key + ":"@ + rest;
    let at = key.len() as int;
    law_places_are_found(line, ':');
    assert(line[at] == ':');
    assert forall|k: int| 0 <= k < at implies #[trigger] line[k] != ':' by {
        assert(line[k] == key[k]);
    }
    assert(first_at(line, ':') == Some(at));
    assert(line.take(at) =~= key);
    assert(line.skip(at + 1) =~= rest);
    assert(all.push(line).last() == line);
}

/// A line of a core begins with `cpu` and a digit; each counts as one, and the line of all
/// cores does not count.
pub proof fn law_cores_are_counted(all: Seq<Seq<char>>, n: nat, rest: Seq<char>)
    ensures
        is_core_line("cpu"@ + decimal(n) + rest),
        !is_core_line("cpu "@ + rest),
        core_count(Seq::empty()) == 0,
        core_count(all.push("cpu"@ + decimal(n) + rest)) == core_count(all) + 1,
        core_count(all.push("cpu "@ + rest)) == core_count(all),
{
    reveal_strlit("cpu");
    reveal_strlit("cpu ");
    law_numbers_read_back(n);
    let core = "cpu"@ + decimal(n) + rest;
    let whole = "cpu "@ + rest;
    assert(core.take(3) =~= "cpu"@);
    assert(core[3] == decimal(n)[0]);
    assert(is_digit(decimal(n)[0]));
    assert(whole[3] == ' ');
    assert(all.push(core).drop_last() =~= all);
    assert(all.push(whole).drop_last() =~= all);
}

/// How long a process ran for itself and for the kernel, and when it started, are the
/// twelfth, the thirteenth and the twentieth field behind the name of its program.
pub proof fn law_ticks_are_read(text: Seq<char>, at: int)
    requires
        last_place(text, ") "@, text.len() as int) == Some(at),
    ensures
        ({
            let fields = words(text.skip(at + 2));
            let user = bounded_value(fields[11], u64::MAX);
            let system = bounded_value(fields[12], u64::MAX);
            let start = bounded_value(fields[19], u64::MAX);
            &&& fields.len() < 20 ==> stat_value(text) is None
            &&& stat_value(text) matches Some(ticks) ==> user == Some(ticks.user) && system == Some(
                ticks.system,
            ) && start == Some(ticks.start)
            &&& fields.len() >= 20 && user is Some && system is Some && start is Some
                ==> stat_value(text) is Some
        }),
{
    reveal_strlit(") ");
}

} // verus!
