use vstd::prelude::*;

use crate::error::Error;
use crate::util::bytes_eq;

verus! {

/// The optional protocol extensions the calling tool may announce.
#[derive(Clone, Copy, Debug, PartialEq, Eq, Structural)]
pub enum Extension {
    Info,
    Async,
    GetGitRemoteName,
    UnavailableResponse,
}

/// The wire token of each extension.
pub open spec fn extension_token(e: Extension) -> Seq<u8> {
    match e {
        Extension::Info => seq!['I' as u8, 'N' as u8, 'F' as u8, 'O' as u8],
        Extension::Async => seq!['A' as u8, 'S' as u8, 'Y' as u8, 'N' as u8, 'C' as u8],
        Extension::GetGitRemoteName => seq!['G' as u8, 'E' as u8, 'T' as u8, 'G' as u8, 'I' as u8, 'T' as u8, 'R' as u8, 'E' as u8, 'M' as u8, 'O' as u8, 'T' as u8, 'E' as u8, 'N' as u8, 'A' as u8, 'M' as u8, 'E' as u8],
        Extension::UnavailableResponse => seq!['U' as u8, 'N' as u8, 'A' as u8, 'V' as u8, 'A' as u8, 'I' as u8, 'L' as u8, 'A' as u8, 'B' as u8, 'L' as u8, 'E' as u8, 'R' as u8, 'E' as u8, 'S' as u8, 'P' as u8, 'O' as u8, 'N' as u8, 'S' as u8, 'E' as u8],
    }
}

/// The set of extensions the calling tool announced.
#[derive(Clone, Copy, Debug, PartialEq, Eq, Structural)]
pub struct ExtensionSet {
    pub info: bool,
    pub asynchronous: bool,
    pub get_git_remote_name: bool,
    pub unavailable_response: bool,
}

/// A byte the protocol treats as whitespace between tokens.
pub open spec fn is_space(b: u8) -> bool {
    b == 32 || b == 9 || b == 10 || b == 12 || b == 13
}

/// The bytes `w` stand at `i` in `s`, bounded by whitespace or the ends.
pub open spec fn word_at(s: Seq<u8>, i: int, w: Seq<u8>) -> bool {
    &&& 0 <= i
    &&& i + w.len() <= s.len()
    &&& s.subrange(i, i + w.len() as int) == w
    &&& (i == 0 || is_space(s[i - 1]))
    &&& (i + w.len() == s.len() || is_space(s[i + w.len()]))
}

/// The bytes `w` stand somewhere in `s` as a whole word.
pub open spec fn has_word(s: Seq<u8>, w: Seq<u8>) -> bool {
    exists|i: int| word_at(s, i, w)
}

/// A maximal whitespace-free run of `s`.
pub open spec fn maximal_word(s: Seq<u8>, i: int, j: int) -> bool {
    &&& 0 <= i < j <= s.len()
    &&& (forall|k: int| i <= k < j ==> !is_space(#[trigger] s[k]))
    &&& (i == 0 || is_space(s[i - 1]))
    &&& (j == s.len() || is_space(s[j]))
}

/// The bytes of some extension's token.
pub open spec fn known_token(w: Seq<u8>) -> bool {
    ||| w == extension_token(Extension::Info)
    ||| w == extension_token(Extension::Async)
    ||| w == extension_token(Extension::GetGitRemoteName)
    ||| w == extension_token(Extension::UnavailableResponse)
}

fn is_space_byte(b: u8) -> (r: bool)
    ensures
        r == is_space(b),
{
    b == 32 || b == 9 || b == 10 || b == 12 || b == 13
}

/// Whether `w` stands in `s` as a whole word.
fn contains_word(s: &[u8], w: &[u8]) -> (r: bool)
    requires
        w@.len() >= 1,
    ensures
        r == has_word(s@, w@),
{
    let n = s.len();
    let m = w.len();
    if m > n {
        proof {
            assert forall|i: int| !word_at(s@, i, w@) by {}
        }
        return false;
    }
    let mut i: usize = 0;
    #[verifier::loop_isolation(false)]
    while i <= n - m
        invariant
            m <= n,
            i <= n - m + 1,
            forall|k: int| 0 <= k < i ==> !word_at(s@, k, w@),
        decreases n - m + 1 - i,
    {
        let pre_ok = i == 0 || is_space_byte(*vstd::slice::slice_index_get(s, i - 1));
        let post_ok = i + m == n || is_space_byte(*vstd::slice::slice_index_get(s, i + m));
        if pre_ok && post_ok && bytes_eq(vstd::slice::slice_subrange(s, i, i + m), w) {
            proof {
                assert(word_at(s@, i as int, w@));
            }
            return true;
        }
        proof {
            assert(!word_at(s@, i as int, w@));
        }
        i = i + 1;
    }
    proof {
        assert forall|k: int| !word_at(s@, k, w@) by {
            if 0 <= k < i {
            } else {
                assert(k < 0 || k + w@.len() > s@.len());
            }
        }
    }
    false
}

impl Extension {
    /// The extension's wire token, as bytes.
    pub fn to_bytes(&self) -> (r: Vec<u8>)
        ensures
            r@ == extension_token(*self),
            r@.len() >= 1,
    {
        let mut v: Vec<u8> = Vec::new();
        match self {
            Extension::Info => {
                v.push('I' as u8);
                v.push('N' as u8);
                v.push('F' as u8);
                v.push('O' as u8);
            },
            Extension::Async => {
                v.push('A' as u8);
                v.push('S' as u8);
                v.push('Y' as u8);
                v.push('N' as u8);
                v.push('C' as u8);
            },
            Extension::GetGitRemoteName => {
                v.push('G' as u8);
                v.push('E' as u8);
                v.push('T' as u8);
                v.push('G' as u8);
                v.push('I' as u8);
                v.push('T' as u8);
                v.push('R' as u8);
                v.push('E' as u8);
                v.push('M' as u8);
                v.push('O' as u8);
                v.push('T' as u8);
                v.push('E' as u8);
                v.push('N' as u8);
                v.push('A' as u8);
                v.push('M' as u8);
                v.push('E' as u8);
            },
            Extension::UnavailableResponse => {
                v.push('U' as u8);
                v.push('N' as u8);
                v.push('A' as u8);
                v.push('V' as u8);
                v.push('A' as u8);
                v.push('I' as u8);
                v.push('L' as u8);
                v.push('A' as u8);
                v.push('B' as u8);
                v.push('L' as u8);
                v.push('E' as u8);
                v.push('R' as u8);
                v.push('E' as u8);
                v.push('S' as u8);
                v.push('P' as u8);
                v.push('O' as u8);
                v.push('N' as u8);
                v.push('S' as u8);
                v.push('E' as u8);
            },
        }
        proof {
            assert(v@ =~= extension_token(*self));
        }
        v
    }

    /// Parse one announced token. `InvalidArguments` exactly when the
    /// bytes are no extension's token.
    pub fn from_str(s: &[u8]) -> (r: Result<Extension, Error>)
        ensures
            match r {
                Ok(e) => s@ == extension_token(e),
                Err(e) => e == Error::InvalidArguments && forall|x: Extension|
                    s@ != extension_token(x),
            },
    {
    let t = Extension::Info.to_bytes();
    if bytes_eq(s, t.as_slice()) {
        return Ok(Extension::Info);
    }
    let t = Extension::Async.to_bytes();
    if bytes_eq(s, t.as_slice()) {
        return Ok(Extension::Async);
    }
    let t = Extension::GetGitRemoteName.to_bytes();
    if bytes_eq(s, t.as_slice()) {
        return Ok(Extension::GetGitRemoteName);
    }
    let t = Extension::UnavailableResponse.to_bytes();
    if bytes_eq(s, t.as_slice()) {
        return Ok(Extension::UnavailableResponse);
    }
    proof {
        assert forall|x: Extension| s@ != extension_token(x) by {
            match x {
            Extension::Info => {},
            Extension::Async => {},
            Extension::GetGitRemoteName => {},
            Extension::UnavailableResponse => {},
            }
        }
    }
    Err(Error::InvalidArguments)
    }

    /// Parse a whitespace-separated announcement line into the set of
    /// extensions it names. Any word that is no extension's token
    /// rejects the whole line.
    pub fn from_strs(s: &[u8]) -> (r: Result<ExtensionSet, Error>)
        ensures
            r matches Ok(set) ==> forall|e: Extension|
                set.spec_contains(e) == has_word(s@, extension_token(e)),
            r is Ok <==> (forall|i: int, j: int|
                maximal_word(s@, i, j) ==> known_token(s@.subrange(i, j))),
            r matches Err(e) ==> e == Error::InvalidArguments,
    {
        let n = s.len();
        let mut i: usize = 0;
        #[verifier::loop_isolation(false)]
        while i < n
            invariant
                i <= n,
                i == 0 || i == n || is_space(s@[i - 1]) || is_space(s@[i as int]),
                forall|a: int, b: int| maximal_word(s@, a, b) && a < i ==> known_token(
                    s@.subrange(a, b),
                ),
            decreases n - i,
        {
            if is_space_byte(*vstd::slice::slice_index_get(s, i)) {
                proof {
                    assert forall|a: int, b: int|
                        maximal_word(s@, a, b) && a < i + 1 implies known_token(
                        s@.subrange(a, b),
                    ) by {
                        if a == i {
                            assert(!is_space(s@[a]));
                        }
                    }
                }
                i = i + 1;
            } else {
                let st = i;
                let mut en = i;
                #[verifier::loop_isolation(false)]
                while en < n && !is_space_byte(*vstd::slice::slice_index_get(s, en))
                    invariant
                        st <= en <= n,
                        forall|k: int| st <= k < en ==> !is_space(#[trigger] s@[k]),
                    decreases n - en,
                {
                    en = en + 1;
                }
                proof {
                    assert(maximal_word(s@, st as int, en as int));
                }
                let word = vstd::slice::slice_subrange(s, st, en);
                if !is_known_token(word) {
                    proof {
                        assert(!known_token(s@.subrange(st as int, en as int)));
                    }
                    return Err(Error::InvalidArguments);
                }
                proof {
                    assert forall|a: int, b: int|
                        maximal_word(s@, a, b) && a < en implies known_token(
                        s@.subrange(a, b),
                    ) by {
                        if st <= a && a < en {
                            if a > st {
                                assert(!is_space(s@[a - 1]));
                            } else {
                                assert(b != en ==> (b < en ==> is_space(s@[b])) && (b > en
                                    ==> !is_space(s@[en as int])));
                                assert(b == en);
                            }
                        }
                    }
                }
                i = en;
            }
        }
        proof {
            assert forall|a: int, b: int| maximal_word(s@, a, b) implies known_token(
                s@.subrange(a, b),
            ) by {
                assert(a < n);
            }
        }
        let mut set = ExtensionSet::new();
        let t = Extension::Info.to_bytes();
        if contains_word(s, t.as_slice()) {
            set.insert(Extension::Info);
        }
        let t = Extension::Async.to_bytes();
        if contains_word(s, t.as_slice()) {
            set.insert(Extension::Async);
        }
        let t = Extension::GetGitRemoteName.to_bytes();
        if contains_word(s, t.as_slice()) {
            set.insert(Extension::GetGitRemoteName);
        }
        let t = Extension::UnavailableResponse.to_bytes();
        if contains_word(s, t.as_slice()) {
            set.insert(Extension::UnavailableResponse);
        }
        proof {
            assert forall|e: Extension| set.spec_contains(e) == has_word(
                s@,
                extension_token(e),
            ) by {
                match e {
            Extension::Info => {},
            Extension::Async => {},
            Extension::GetGitRemoteName => {},
            Extension::UnavailableResponse => {},
                }
            }
        }
        Ok(set)
    }
}

/// Whether the bytes are some extension's token.
fn is_known_token(w: &[u8]) -> (r: bool)
    ensures
        r == known_token(w@),
{
    match Extension::from_str(w) {
        Ok(_) => true,
        Err(_) => {
            proof {
                assert(w@ != extension_token(Extension::Info));
                assert(w@ != extension_token(Extension::Async));
                assert(w@ != extension_token(Extension::GetGitRemoteName));
                assert(w@ != extension_token(Extension::UnavailableResponse));
            }
            false
        },
    }
}

impl ExtensionSet {
    /// Which flag an extension sets.
    pub open spec fn spec_contains(&self, e: Extension) -> bool {
        match e {
            Extension::Info => self.info,
            Extension::Async => self.asynchronous,
            Extension::GetGitRemoteName => self.get_git_remote_name,
            Extension::UnavailableResponse => self.unavailable_response,
        }
    }

    /// The empty set: nothing announced.
    pub fn new() -> (r: ExtensionSet)
        ensures
            forall|e: Extension| !r.spec_contains(e),
    {
        ExtensionSet {
            info: false,
            asynchronous: false,
            get_git_remote_name: false,
            unavailable_response: false,
        }
    }

    /// Whether the set holds the extension.
    pub fn contains(&self, e: Extension) -> (r: bool)
        ensures
            r == self.spec_contains(e),
    {
        match e {
            Extension::Info => self.info,
            Extension::Async => self.asynchronous,
            Extension::GetGitRemoteName => self.get_git_remote_name,
            Extension::UnavailableResponse => self.unavailable_response,
        }
    }

    /// Add one extension to the set.
    pub fn insert(&mut self, e: Extension)
        ensures
            forall|x: Extension|
                final(self).spec_contains(x) == (x == e || old(self).spec_contains(x)),
    {
        match e {
            Extension::Info => {
                self.info = true;
            },
            Extension::Async => {
                self.asynchronous = true;
            },
            Extension::GetGitRemoteName => {
                self.get_git_remote_name = true;
            },
            Extension::UnavailableResponse => {
                self.unavailable_response = true;
            },
        }
        proof {
            assert forall|x: Extension|
                self.spec_contains(x) == (x == e || old(self).spec_contains(x)) by {
                match x {
            Extension::Info => {},
            Extension::Async => {},
            Extension::GetGitRemoteName => {},
            Extension::UnavailableResponse => {},
                }
            }
        }
    }
}

} // verus!
