use vstd::prelude::*;
use crate::errors::ErrorKind;

verus! {

/// How many leading bytes of the first chunk are searched for the
/// status line. A status line that has not completed its
/// `HTTP/<version> <code> ` prefix within this window counts as
/// malformed.
pub const STATUS_WINDOW: usize = 15;

/// An ASCII decimal digit.
pub open spec fn is_ascii_digit(b: u8) -> bool {
    48 <= b && b <= 57
}

/// The buffer opens with `HTTP/`, each letter in either case.
pub open spec fn starts_http(s: Seq<u8>) -> bool {
    &&& s.len() >= 5
    &&& (s[0] == 72 || s[0] == 104)
    &&& (s[1] == 84 || s[1] == 116)
    &&& (s[2] == 84 || s[2] == 116)
    &&& (s[3] == 80 || s[3] == 112)
    &&& s[4] == 47
}

/// First space at or after `i`, if any.
pub open spec fn find_space_from(s: Seq<u8>, i: int) -> Option<int>
    recommends
        0 <= i,
    decreases s.len() - i,
{
    if i >= s.len() {
        None
    } else if s[i] == 32 {
        Some(i)
    } else {
        find_space_from(s, i + 1)
    }
}

/// The status code the pattern `HTTP/<version> <3-digit-code> <reason>`
/// yields on `s`, where `<version>` runs to the first space and
/// `<reason>` may be empty. `None` when the pattern does not fit.
pub open spec fn status_in(s: Seq<u8>) -> Option<u16> {
    if !starts_http(s) {
        None
    } else {
        match find_space_from(s, 5) {
            None => None,
            Some(j) => {
                if j + 5 <= s.len() && is_ascii_digit(s[j + 1]) && is_ascii_digit(s[j + 2])
                    && is_ascii_digit(s[j + 3]) && s[j + 4] == 32 {
                    Some(
                        (100 * (s[j + 1] - 48) + 10 * (s[j + 2] - 48) + (s[j + 3]
                            - 48)) as u16,
                    )
                } else {
                    None
                }
            },
        }
    }
}

/// The window of `s` that status extraction inspects.
pub open spec fn status_window(s: Seq<u8>) -> Seq<u8> {
    if s.len() <= STATUS_WINDOW {
        s
    } else {
        s.take(STATUS_WINDOW as int)
    }
}

/// The status code carried by the leading bytes of a first chunk.
pub open spec fn spec_status(s: Seq<u8>) -> Option<u16> {
    status_in(status_window(s))
}

/// Extracts the numeric status code from the head of a response
/// buffer: the pattern `HTTP/<version> <3-digit-code> <reason>`,
/// letters of `HTTP` in either case, matched against the first
/// `STATUS_WINDOW` bytes. A buffer that does not carry the pattern
/// there is `MalformedStatusLine`.
pub fn extract_http_code(buffer: &Vec<u8>) -> (r: Result<u16, ErrorKind>)
    ensures
        match r {
            Ok(code) => spec_status(buffer@) == Some(code),
            Err(e) => e == ErrorKind::MalformedStatusLine && spec_status(buffer@).is_none(),
        },
{
    let ghost w = status_window(buffer@);
    let limit: usize = if buffer.len() <= STATUS_WINDOW {
        buffer.len()
    } else {
        STATUS_WINDOW
    };
    proof {
        assert(w.len() == limit);
        assert(forall|k: int| 0 <= k < limit ==> w[k] == buffer@[k]);
    }
    if limit < 5 {
        return Err(ErrorKind::MalformedStatusLine);
    }
    let h0 = buffer[0];
    let h1 = buffer[1];
    let h2 = buffer[2];
    let h3 = buffer[3];
    let h4 = buffer[4];
    if !((h0 == 72 || h0 == 104) && (h1 == 84 || h1 == 116) && (h2 == 84 || h2 == 116) && (
    h3 == 80 || h3 == 112) && h4 == 47) {
        return Err(ErrorKind::MalformedStatusLine);
    }

    let mut j: usize = 5;
    let mut space: Option<usize> = None;
    while j < limit
        invariant_except_break
            5 <= j <= limit,
            limit == w.len(),
            w == status_window(buffer@),
            limit <= buffer@.len(),
            space.is_none(),
            find_space_from(w, 5) == find_space_from(w, j as int),
        ensures
            limit == w.len(),
            w == status_window(buffer@),
            limit <= buffer@.len(),
            match space {
                Some(k) => find_space_from(w, 5) == Some(k as int) && 5 <= k && k < limit,
                None => find_space_from(w, 5).is_none(),
            },
        decreases limit - j,
    {
        if buffer[j] == 32 {
            space = Some(j);
            break ;
        }
        j = j + 1;
    }

    match space {
        None => Err(ErrorKind::MalformedStatusLine),
        Some(k) => {
            if k + 5 <= limit {
                let d1 = buffer[k + 1];
                let d2 = buffer[k + 2];
                let d3 = buffer[k + 3];
                let sp = buffer[k + 4];
                if 48 <= d1 && d1 <= 57 && 48 <= d2 && d2 <= 57 && 48 <= d3 && d3 <= 57
                    && sp == 32 {
                    let code: u16 = 100 * ((d1 - 48) as u16) + 10 * ((d2 - 48) as u16) + ((d3
                        - 48) as u16);
                    Ok(code)
                } else {
                    Err(ErrorKind::MalformedStatusLine)
                }
            } else {
                Err(ErrorKind::MalformedStatusLine)
            }
        },
    }
}

/// Running account of one response stream, fed chunk by chunk as the
/// stream is drained. Byte counting and status extraction are
/// independent: a malformed status line leaves the count undisturbed,
/// and only the first non-empty chunk is searched for a status line.
pub struct ResponseReader {
    pub bytes: usize,
    pub status: Option<u16>,
    pub seen_first: bool,
}

impl ResponseReader {
    /// A reader that has seen none of the stream: zero bytes, no
    /// status.
    pub fn new() -> (r: ResponseReader)
        ensures
            r.bytes == 0,
            r.status.is_none(),
            !r.seen_first,
    {
        ResponseReader { bytes: 0, status: None, seen_first: false }
    }

    /// Accounts one chunk read from the stream. The byte count grows
    /// by the chunk's length; the first non-empty chunk, and only it,
    /// is searched for the status line.
    pub fn feed_chunk(&mut self, chunk: &Vec<u8>)
        requires
            old(self).bytes + chunk@.len() <= usize::MAX,
        ensures
            final(self).bytes == old(self).bytes + chunk@.len(),
            (old(self).seen_first || chunk@.len() == 0) ==> final(self).status == old(self).status
                && final(self).seen_first == old(self).seen_first,
            (!old(self).seen_first && chunk@.len() > 0) ==> final(self).seen_first
                && final(self).status == spec_status(chunk@),
    {
        self.bytes = self.bytes + chunk.len();
        if !self.seen_first && chunk.len() > 0 {
            self.seen_first = true;
            match extract_http_code(chunk) {
                Ok(code) => {
                    self.status = Some(code);
                },
                Err(_) => {
                    self.status = None;
                },
            }
        }
    }
}

} // verus!
