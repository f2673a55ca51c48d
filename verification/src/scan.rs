//! Reading a header from a stream, one decision at a time.
//!
//! The stream itself is driven from outside: it reads or moves as each step
//! asks and hands the bytes over. The steps decide how far to read ahead,
//! where to resume after a payload that is passed over, and when the header
//! is complete or cannot be read. Bytes of a passed-over payload are never
//! asked for: zeros stand for them, which the reader never looks at.
use vstd::prelude::*;

use crate::format::{
    ErrorView, HeaderView, error_message, lemma_header_ignores_trailing_bytes, parse_header, settled,
};
use crate::passed_over::{differ_only_before, lemma_passed_over_bytes_are_not_read};
use crate::header::{GgufError, GgufHeader};

verus! {

/// First prefix asked for; the request doubles while the header is incomplete.
pub const FIRST_PREFIX_BYTES: usize = 65536;

/// What a scan holds: the bytes so far (zeros in passed-over payloads) and
/// how far the next read goes.
#[verifier::ext_equal]
pub struct ScanView {
    pub data: Seq<u8>,
    pub target: usize,
}

/// Progress of reading one header from a stream.
pub struct HeaderScan {
    data: Vec<u8>,
    target: usize,
}

impl View for HeaderScan {
    type V = ScanView;

    closed spec fn view(&self) -> ScanView {
        ScanView { data: self.data@, target: self.target }
    }
}

/// What the stream should do next.
#[derive(Debug)]
pub enum ScanStep {
    /// Read until the bytes so far reach `upto` or the stream ends, and hand
    /// them over with `push`.
    Read { upto: usize },
    /// Move the stream to `offset`, by seeking or by reading and discarding;
    /// the bytes before it are already accounted for.
    SkipTo { offset: u64 },
    /// The header is complete.
    Done(GgufHeader),
    /// The header cannot be read; the message says why.
    Failed(String),
}

/// The decision of a step, without the parsed header.
#[verifier::ext_equal]
pub enum StepKind {
    Read { upto: usize },
    SkipTo { offset: u64 },
    Done,
    Failed(Seq<char>),
}

/// `x` doubled, saturating at `usize::MAX`.
pub open spec fn doubled(x: usize) -> usize {
    if 2 * x > usize::MAX {
        usize::MAX
    } else {
        (2 * x) as usize
    }
}

/// The larger of two sizes.
pub open spec fn larger(a: usize, b: usize) -> usize {
    if a >= b {
        a
    } else {
        b
    }
}

/// `a + b`, saturating at `usize::MAX`.
pub open spec fn sum_capped(a: usize, b: usize) -> usize {
    if a + b > usize::MAX {
        usize::MAX
    } else {
        (a + b) as usize
    }
}

/// The step a scan in state `v` takes, given whether the stream has ended
/// and its length where it is known, and the state after it.
pub open spec fn scan_next(v: ScanView, ended: bool, len_hint: Option<u64>) -> (StepKind, ScanView) {
    match parse_header(v.data) {
        Ok(_) => (StepKind::Done, v),
        Err(ErrorView::Truncated { skip_to: Some(end) }) if !ended => {
            let past_end = len_hint matches Some(len) && end > len;
            if past_end || end <= v.data.len() || end > usize::MAX {
                (StepKind::Failed(error_message(ErrorView::Truncated { skip_to: Some(end) })), v)
            } else {
                (
                    StepKind::SkipTo { offset: end },
                    ScanView {
                        data: v.data + Seq::new((end - v.data.len()) as nat, |i: int| 0u8),
                        target: larger(doubled(v.target), sum_capped(end as usize, FIRST_PREFIX_BYTES)),
                    },
                )
            }
        },
        Err(ErrorView::Truncated { skip_to: None }) if !ended => if v.data.len() < v.target {
            (StepKind::Read { upto: v.target }, v)
        } else {
            let t = doubled(larger(v.target, v.data.len() as usize));
            (StepKind::Read { upto: t }, ScanView { target: t, ..v })
        },
        Err(e) => (StepKind::Failed(error_message(e)), v),
    }
}

/// The decision a step carries.
pub open spec fn kind_of(s: ScanStep) -> StepKind {
    match s {
        ScanStep::Read { upto } => StepKind::Read { upto },
        ScanStep::SkipTo { offset } => StepKind::SkipTo { offset },
        ScanStep::Done(_) => StepKind::Done,
        ScanStep::Failed(m) => StepKind::Failed(m@),
    }
}

/// The bytes `d` held by a scan stand for the start of the file `f`: they
/// are no longer than `f`, and `d` followed by the rest of `f` parses as `f`
/// does (bytes of `d` may differ from `f` only where they are never read).
pub open spec fn faithful(d: Seq<u8>, f: Seq<u8>) -> bool {
    d.len() <= f.len() && parse_header(d + f.skip(d.len() as int)) == parse_header(f)
}

/// A scan that has read nothing is faithful to every file.
pub proof fn lemma_fresh_scan_is_faithful(f: Seq<u8>)
    ensures
        faithful(Seq::empty(), f),
{
    assert(Seq::<u8>::empty() + f.skip(0) =~= f);
}

/// Handing a scan the next bytes of the file keeps it faithful.
pub proof fn lemma_reads_keep_the_scan_faithful(d: Seq<u8>, f: Seq<u8>, n: nat)
    requires
        faithful(d, f),
        d.len() + n <= f.len(),
    ensures
        faithful(d + f.subrange(d.len() as int, (d.len() + n) as int), f),
{
    let d2 = d + f.subrange(d.len() as int, (d.len() + n) as int);
    assert(d2 + f.skip(d2.len() as int) =~= d + f.skip(d.len() as int));
}

/// Jumping over a payload keeps a scan faithful when the file reaches the
/// point where reading resumes: the zeros that stand for the payload are
/// never read.
pub proof fn lemma_jumps_keep_the_scan_faithful(
    v: ScanView,
    ended: bool,
    len_hint: Option<u64>,
    f: Seq<u8>,
)
    requires
        faithful(v.data, f),
        scan_next(v, ended, len_hint).0 matches StepKind::SkipTo { offset } && offset <= f.len(),
    ensures
        faithful(scan_next(v, ended, len_hint).1.data, f),
{
    let d = v.data;
    let end = scan_next(v, ended, len_hint).0->offset as int;
    let d2 = scan_next(v, ended, len_hint).1.data;
    assert(d2 =~= d + Seq::new((end - d.len()) as nat, |i: int| 0u8));
    let s1 = d + f.skip(d.len() as int);
    let s2 = d2 + f.skip(end);
    assert(s1.take(d.len() as int) =~= d);
    assert(s2.take(d.len() as int) =~= d);
    assert forall|i: int| end <= i < s1.len() implies s1[i] == s2[i] by {
        assert(s1[i] == f[i]);
        assert(s2[i] == f[i]);
    }
    assert(differ_only_before(d, end, s1, s2));
    lemma_passed_over_bytes_are_not_read(d, end, s1, s2);
}

/// A faithful scan that is done has read the file's own header: its bytes
/// parse exactly as the whole file does.
pub proof fn lemma_done_scan_reads_the_file_header(
    v: ScanView,
    ended: bool,
    len_hint: Option<u64>,
    f: Seq<u8>,
)
    requires
        faithful(v.data, f),
        scan_next(v, ended, len_hint).0 is Done,
    ensures
        parse_header(v.data) == parse_header(f),
{
    assert(settled(parse_header(v.data)));
    lemma_header_ignores_trailing_bytes(v.data, f.skip(v.data.len() as int));
}

impl HeaderScan {
    /// A scan that has read nothing yet.
    pub fn new() -> (s: Self)
        ensures
            s@ == (ScanView { data: Seq::empty(), target: FIRST_PREFIX_BYTES }),
    {
        HeaderScan { data: Vec::new(), target: FIRST_PREFIX_BYTES }
    }

    /// Bytes held so far, passed-over payloads included.
    pub fn len(&self) -> (n: usize)
        ensures
            n == self@.data.len(),
    {
        self.data.len()
    }

    /// Appends bytes read from the stream.
    pub fn push(&mut self, bytes: &[u8])
        ensures
            final(self)@ == (ScanView { data: old(self)@.data + bytes@, ..old(self)@ }),
    {
        let mut i: usize = 0;
        let ghost start = self.data@;
        while i < bytes.len()
            invariant
                i <= bytes.len(),
                self.data@ == start + bytes@.subrange(0, i as int),
                self.target == old(self).target,
                start == old(self).data@,
            decreases bytes.len() - i,
        {
            self.data.push(bytes[i]);
            i = i + 1;
            assert(self.data@ =~= start + bytes@.subrange(0, i as int));
        }
        assert(bytes@.subrange(0, i as int) =~= bytes@);
    }

    /// Pads the bytes with zeros up to `end` and moves the read target past it.
    fn pass_over(&mut self, end: usize)
        requires
            old(self)@.data.len() < end,
        ensures
            final(self)@ == (ScanView {
                data: old(self)@.data + Seq::new((end - old(self)@.data.len()) as nat, |i: int| 0u8),
                target: larger(doubled(old(self)@.target), sum_capped(end, FIRST_PREFIX_BYTES)),
            }),
    {
        let ghost start = self.data@;
        while self.data.len() < end
            invariant
                start == old(self).data@,
                self.target == old(self).target,
                start.len() <= self.data@.len() <= end,
                self.data@ == start + Seq::new(
                    (self.data@.len() - start.len()) as nat,
                    |i: int| 0u8,
                ),
            decreases end - self.data.len(),
        {
            self.data.push(0u8);
            assert(self.data@ =~= start + Seq::new(
                (self.data@.len() - start.len()) as nat,
                |i: int| 0u8,
            ));
        }
        let d: usize = if self.target > usize::MAX / 2 {
            usize::MAX
        } else {
            2 * self.target
        };
        let s: usize = if end > usize::MAX - FIRST_PREFIX_BYTES {
            usize::MAX
        } else {
            end + FIRST_PREFIX_BYTES
        };
        self.target = if d >= s {
            d
        } else {
            s
        };
    }

    /// The next read, widening the target once the bytes have reached it.
    fn read_more(&mut self) -> (upto: usize)
        ensures
            old(self)@.data.len() < old(self)@.target ==> upto == old(self)@.target
                && final(self)@ == old(self)@,
            old(self)@.data.len() >= old(self)@.target ==> upto == doubled(
                larger(old(self)@.target, old(self)@.data.len() as usize),
            ) && final(self)@ == (ScanView { target: upto, ..old(self)@ }),
    {
        if self.data.len() < self.target {
            return self.target;
        }
        let m = if self.target >= self.data.len() {
            self.target
        } else {
            self.data.len()
        };
        let t: usize = if m > usize::MAX / 2 {
            usize::MAX
        } else {
            2 * m
        };
        self.target = t;
        t
    }

    /// Decides the next step from the bytes held so far.
    pub fn step(&mut self, ended: bool, len_hint: Option<u64>) -> (r: ScanStep)
        ensures
            kind_of(r) == scan_next(old(self)@, ended, len_hint).0,
            final(self)@ == scan_next(old(self)@, ended, len_hint).1,
            r matches ScanStep::Done(h) ==> (parse_header(old(self)@.data) matches Ok((hv, _))
                && h.represents(hv)),
    {
        let parsed = GgufHeader::parse(self.data.as_slice());
        let e = match parsed {
            Ok((h, _)) => {
                return ScanStep::Done(h);
            },
            Err(e) => e,
        };
        if ended {
            return ScanStep::Failed(e.message());
        }
        match e {
            GgufError::Truncated { skip_to: Some(end) } => {
                let past_end = match len_hint {
                    Some(len) => end > len,
                    None => false,
                };
                if past_end || end <= self.data.len() as u64 || end > usize::MAX as u64 {
                    ScanStep::Failed(GgufError::Truncated { skip_to: Some(end) }.message())
                } else {
                    self.pass_over(end as usize);
                    ScanStep::SkipTo { offset: end }
                }
            },
            GgufError::Truncated { skip_to: None } => {
                let upto = self.read_more();
                ScanStep::Read { upto }
            },
            other => ScanStep::Failed(other.message()),
        }
    }
}

} // verus!
