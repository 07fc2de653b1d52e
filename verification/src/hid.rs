//! Decoding of HID input reports.

use vstd::prelude::*;
use crate::config::Config;
use crate::text::{
    before_first, before_last, chars_of, contains_chars, find_chars, first_occurrence,
    index_of_first, index_of_last, occurs_at, same_text,
};

verus! {

/// A command recognised in an input report of the headset receiver.
#[derive(Debug, Clone, Copy, PartialEq, Eq, Structural)]
pub enum HidEvent {
    PowerOn,
    PowerOff,
    VolumeUp,
    VolumeDown,
    MicToggle,
}

/// `data` is `pattern`, possibly preceded by a single report id byte `0x00`.
pub open spec fn report_matches(data: Seq<u8>, pattern: Seq<u8>) -> bool {
    ||| data == pattern
    ||| (data.len() == pattern.len() + 1 && data[0] == 0u8 && data.drop_first() == pattern)
}

/// The headset was switched on.
pub open spec fn power_on_report() -> Seq<u8> {
    seq![0x64u8, 0x01u8]
}

/// The headset was switched off.
pub open spec fn power_off_report() -> Seq<u8> {
    seq![0x64u8, 0x03u8]
}

/// The volume wheel turned up.
pub open spec fn volume_up_report() -> Seq<u8> {
    seq![0x01u8, 0x01u8, 0x00u8, 0x00u8, 0x00u8]
}

/// The volume wheel turned down.
pub open spec fn volume_down_report() -> Seq<u8> {
    seq![0x01u8, 0x02u8, 0x00u8, 0x00u8, 0x00u8]
}

/// The microphone was switched (one of two reports).
pub open spec fn mic_report_a() -> Seq<u8> {
    seq![0x65u8, 0x00u8]
}

/// The microphone was switched (the other report).
pub open spec fn mic_report_b() -> Seq<u8> {
    seq![0x65u8, 0x04u8]
}

/// The command that an input report carries, patterns tried in this order.
pub open spec fn decode_report(data: Seq<u8>) -> Option<HidEvent> {
    if report_matches(data, power_on_report()) {
        Some(HidEvent::PowerOn)
    } else if report_matches(data, power_off_report()) {
        Some(HidEvent::PowerOff)
    } else if report_matches(data, volume_up_report()) {
        Some(HidEvent::VolumeUp)
    } else if report_matches(data, volume_down_report()) {
        Some(HidEvent::VolumeDown)
    } else if report_matches(data, mic_report_a()) || report_matches(data, mic_report_b()) {
        Some(HidEvent::MicToggle)
    } else {
        None
    }
}

/// Whether `data[start..]` equals `pattern`.
fn tail_equals(data: &[u8], start: usize, pattern: &[u8]) -> (r: bool)
    requires
        start <= data@.len(),
    ensures
        r == (data@.subrange(start as int, data@.len() as int) == pattern@),
{
    if data.len() - start != pattern.len() {
        return false;
    }
    let mut i: usize = 0;
    while i < pattern.len()
        invariant
            start <= data@.len(),
            data@.len() - start == pattern@.len(),
            data@.len() == data.len(),
            i <= pattern@.len(),
            forall|j: int| 0 <= j < i ==> data@[start + j] == pattern@[j],
        decreases pattern@.len() - i,
    {
        if data[start + i] != pattern[i] {
            assert(data@.subrange(start as int, data@.len() as int)[i as int] != pattern@[i as int]);
            return false;
        }
        i += 1;
    }
    assert(data@.subrange(start as int, data@.len() as int) =~= pattern@);
    true
}

/// Whether `data` is `pattern`, tolerating one leading report id `0x00`.
fn matches(data: &[u8], pattern: &[u8]) -> (r: bool)
    ensures
        r == report_matches(data@, pattern@),
{
    if tail_equals(data, 0, pattern) {
        assert(data@.subrange(0, data@.len() as int) =~= data@);
        return true;
    }
    assert(data@.subrange(0, data@.len() as int) =~= data@);
    if data.len() > 0 && data.len() - 1 == pattern.len() && data[0] == 0 {
        let r = tail_equals(data, 1, pattern);
        assert(data@.subrange(1, data@.len() as int) =~= data@.drop_first());
        return r;
    }
    false
}

/// Recognises the command carried by one input report.
pub fn parse_report(data: &[u8]) -> (ev: Option<HidEvent>)
    ensures
        ev == decode_report(data@),
{
    let on: [u8; 2] = [0x64, 0x01];
    assert(on@ =~= power_on_report());
    if matches(data, &on) {
        return Some(HidEvent::PowerOn);
    }
    let off: [u8; 2] = [0x64, 0x03];
    assert(off@ =~= power_off_report());
    if matches(data, &off) {
        return Some(HidEvent::PowerOff);
    }
    let up: [u8; 5] = [0x01, 0x01, 0x00, 0x00, 0x00];
    assert(up@ =~= volume_up_report());
    if matches(data, &up) {
        return Some(HidEvent::VolumeUp);
    }
    let down: [u8; 5] = [0x01, 0x02, 0x00, 0x00, 0x00];
    assert(down@ =~= volume_down_report());
    if matches(data, &down) {
        return Some(HidEvent::VolumeDown);
    }
    let mic_a: [u8; 2] = [0x65, 0x00];
    let mic_b: [u8; 2] = [0x65, 0x04];
    assert(mic_a@ =~= mic_report_a());
    assert(mic_b@ =~= mic_report_b());
    if matches(data, &mic_a) || matches(data, &mic_b) {
        return Some(HidEvent::MicToggle);
    }
    None
}

/// A pattern that starts with a byte other than `0x00` is matched by `data`
/// exactly when `data` is that pattern, and by `0x00 ++ data` in the same case.
proof fn lemma_match_with_report_id(data: Seq<u8>, pattern: Seq<u8>)
    requires
        pattern.len() > 0,
        pattern[0] != 0u8,
        data.len() == 0 || data[0] != 0u8,
    ensures
        report_matches(data, pattern) == (data == pattern),
        report_matches(seq![0u8] + data, pattern) == (data == pattern),
{
    let prefixed = seq![0u8] + data;
    assert(prefixed.drop_first() =~= data);
    assert(prefixed[0] == 0u8);
    if prefixed == pattern {
        assert(prefixed[0] == pattern[0]);
    }
}

/// A report id byte `0x00` put in front of a report that does not already
/// start with `0x00` does not change which command the report carries.
pub proof fn lemma_leading_report_id_ignored(data: Seq<u8>)
    requires
        data.len() == 0 || data[0] != 0u8,
    ensures
        decode_report(seq![0u8] + data) == decode_report(data),
{
    lemma_match_with_report_id(data, power_on_report());
    lemma_match_with_report_id(data, power_off_report());
    lemma_match_with_report_id(data, volume_up_report());
    lemma_match_with_report_id(data, volume_down_report());
    lemma_match_with_report_id(data, mic_report_a());
    lemma_match_with_report_id(data, mic_report_b());
}

/// The readable part of a HID device path: from `VID_` up to the next `#`
/// when the path names a vendor id, otherwise everything before the last `#`.
pub open spec fn device_label(path: Seq<char>) -> Seq<char> {
    if contains_chars(path, "VID_"@) {
        before_first(path.skip(first_occurrence(path, "VID_"@)), '#')
    } else {
        before_last(path, '#')
    }
}

/// A short label of a device path for log lines, such as `VID_03F0&PID_0A8E&MI_03&Col02`.
pub fn short_label(path: &str) -> (label: String)
    ensures
        label@ == device_label(path@),
{
    let p = chars_of(path);
    let marker = chars_of("VID_");
    match find_chars(&p, &marker) {
        Some(pos) => {
            let end = index_of_first(&p, pos, '#');
            proof {
                let m = "VID_"@;
                let c = first_occurrence(p@, m);
                assert(occurs_at(p@, m, pos as int));
                assert(contains_chars(p@, m));
                assert(occurs_at(p@, m, c) && forall|j: int| 0 <= j < c ==> !occurs_at(p@, m, j));
                if c < pos {
                } else if c > pos {
                }
                assert(c == pos);
                let rest = p@.skip(pos as int);
                if end < p@.len() {
                    assert(rest[end - pos] == '#');
                    assert(rest.contains('#'));
                    let k = choose|i: int| 0 <= i < rest.len() && rest[i] == '#' && forall|j: int| 0 <= j < i ==> rest[j] != '#';
                    assert(rest[k] == '#');
                    if k < end - pos {
                        assert(p@[pos + k] == '#');
                    } else if k > end - pos {
                    }
                    assert(k == end - pos);
                } else {
                    assert forall|i: int| 0 <= i < rest.len() implies rest[i] != '#' by {
                        assert(rest[i] == p@[pos + i]);
                    }
                }
                assert(before_first(rest, '#') =~= p@.subrange(pos as int, end as int));
            }
            String::from_str(path.substring_char(pos, end))
        },
        None => {
            let end = index_of_last(&p, '#');
            proof {
                if end < p@.len() {
                    assert(p@.contains('#'));
                    let k = choose|i: int| 0 <= i < p@.len() && p@[i] == '#' && forall|j: int| i < j < p@.len() ==> p@[j] != '#';
                    if k < end {
                    } else if k > end {
                    }
                    assert(k == end);
                }
                assert(before_last(p@, '#') =~= p@.subrange(0, end as int));
            }
            String::from_str(path.substring_char(0, end))
        },
    }
}

/// Some of the first `n` strings of `v` holds the text `q`.
pub open spec fn in_prefix(v: Seq<String>, n: int, q: Seq<char>) -> bool {
    exists|k: int| 0 <= k < n && #[trigger] v[k]@ == q
}

proof fn lemma_in_prefix_step(v: Seq<String>, n: int, q: Seq<char>)
    requires
        0 <= n < v.len(),
    ensures
        in_prefix(v, n + 1, q) == (in_prefix(v, n, q) || v[n]@ == q),
{
    if in_prefix(v, n + 1, q) {
        let k = choose|k: int| 0 <= k < n + 1 && #[trigger] v[k]@ == q;
        if k < n {
            assert(in_prefix(v, n, q));
        }
    }
    if in_prefix(v, n, q) {
        let k = choose|k: int| 0 <= k < n && #[trigger] v[k]@ == q;
        assert(v[k]@ == q);
    }
}

proof fn lemma_in_prefix_push(v: Seq<String>, x: String, q: Seq<char>)
    ensures
        in_prefix(v.push(x), (v.len() + 1) as int, q) == (in_prefix(v, v.len() as int, q) || x@ == q),
{
    let w = v.push(x);
    lemma_in_prefix_step(w, v.len() as int, q);
    if in_prefix(w, v.len() as int, q) {
        let k = choose|k: int| 0 <= k < v.len() && #[trigger] w[k]@ == q;
        assert(v[k]@ == q);
    }
    if in_prefix(v, v.len() as int, q) {
        let k = choose|k: int| 0 <= k < v.len() && #[trigger] v[k]@ == q;
        assert(w[k]@ == q);
    }
}

/// Paths of HID collections whose failure to open was reported, so that a
/// failing collection is reported once and not at every scan.
pub struct WarnedPaths {
    paths: Vec<String>,
}

impl View for WarnedPaths {
    type V = Set<Seq<char>>;

    closed spec fn view(&self) -> Set<Seq<char>> {
        Set::new(|p: Seq<char>| in_prefix(self.paths@, self.paths@.len() as int, p))
    }
}

impl WarnedPaths {
    /// No path reported yet.
    pub fn new() -> (w: Self)
        ensures
            w@ == Set::<Seq<char>>::empty(),
    {
        let w = WarnedPaths { paths: Vec::new() };
        assert(w@ =~= Set::<Seq<char>>::empty());
        w
    }

    /// Notes a failure for `path`; true when it was not noted before, that is,
    /// when it is to be reported.
    pub fn insert(&mut self, path: &str) -> (fresh: bool)
        ensures
            fresh == !old(self)@.contains(path@),
            final(self)@ == old(self)@.insert(path@),
    {
        let mut i: usize = 0;
        while i < self.paths.len()
            invariant
                i <= self.paths@.len(),
                !in_prefix(self.paths@, i as int, path@),
            decreases self.paths@.len() - i,
        {
            proof {
                lemma_in_prefix_step(self.paths@, i as int, path@);
            }
            if same_text(self.paths[i].as_str(), path) {
                assert(self@.contains(path@));
                assert(self@.insert(path@) =~= self@);
                return false;
            }
            i += 1;
        }
        let ghost before = self.paths@;
        let item = String::from_str(path);
        self.paths.push(item);
        proof {
            assert forall|q: Seq<char>| #![auto] self@.contains(q) == old(self)@.insert(path@).contains(q) by {
                lemma_in_prefix_push(before, item, q);
            }
        }
        assert(self@ =~= old(self)@.insert(path@));
        true
    }

    /// Forgets `path`, which opened after all.
    pub fn remove(&mut self, path: &str)
        ensures
            final(self)@ == old(self)@.remove(path@),
    {
        let mut kept: Vec<String> = Vec::new();
        let mut i: usize = 0;
        while i < self.paths.len()
            invariant
                i <= self.paths@.len(),
                self.paths == old(self).paths,
                forall|q: Seq<char>| #[trigger] in_prefix(kept@, kept@.len() as int, q) == (q != path@ && in_prefix(self.paths@, i as int, q)),
            decreases self.paths@.len() - i,
        {
            let ghost before = kept@;
            if !same_text(self.paths[i].as_str(), path) {
                let item = self.paths[i].clone();
                kept.push(item);
                assert forall|q: Seq<char>| #[trigger] in_prefix(kept@, kept@.len() as int, q) == (q != path@ && in_prefix(self.paths@, i + 1, q)) by {
                    lemma_in_prefix_push(before, item, q);
                    lemma_in_prefix_step(self.paths@, i as int, q);
                }
            } else {
                assert forall|q: Seq<char>| #[trigger] in_prefix(kept@, kept@.len() as int, q) == (q != path@ && in_prefix(self.paths@, i + 1, q)) by {
                    lemma_in_prefix_step(self.paths@, i as int, q);
                }
            }
            i += 1;
        }
        self.paths = kept;
        assert(self@ =~= old(self)@.remove(path@));
    }
}

/// A HID device belongs to the headset receiver when both ids match the configuration.
pub fn accepts_device(config: &Config, vendor_id: u16, product_id: u16) -> (r: bool)
    ensures
        r == (vendor_id == config.vendor_id && product_id == config.product_id),
{
    vendor_id == config.vendor_id && product_id == config.product_id
}

} // verus!
