//! Header specifications (`name:path` arguments), the values loaded for each
//! header, and the cycler that hands each worker one combination of values.

use vstd::prelude::*;
use reqwest::header::{HeaderMap, HeaderName, HeaderValue, InvalidHeaderName, InvalidHeaderValue};

verus! {

#[verifier::external_type_specification]
#[verifier::external_body]
pub struct ExHeaderName(HeaderName);

#[verifier::external_type_specification]
#[verifier::external_body]
pub struct ExHeaderValue(HeaderValue);

#[verifier::external_type_specification]
#[verifier::external_body]
pub struct ExInvalidHeaderName(InvalidHeaderName);

#[verifier::external_type_specification]
#[verifier::external_body]
pub struct ExInvalidHeaderValue(InvalidHeaderValue);

#[verifier::external_type_specification]
#[verifier::external_body]
#[verifier::reject_recursive_types(T)]
pub struct ExHeaderMap<T>(HeaderMap<T>);

/// The header name that a byte string parses to, if it is one.
pub uninterp spec fn header_name_of(b: Seq<u8>) -> Option<HeaderName>;

/// The header value that holds exactly the given bytes.
pub uninterp spec fn header_value_of(b: Seq<u8>) -> HeaderValue;

/// The values a header map holds under each name, in the order they were
/// appended.
pub uninterp spec fn header_map_values(m: HeaderMap) -> Map<HeaderName, Seq<HeaderValue>>;

/// Relies on `HeaderName::from_bytes`: the result depends on the bytes alone,
/// and an empty name is refused.
#[verifier::external_body]
fn header_name_from_bytes(b: &[u8]) -> (r: Result<HeaderName, InvalidHeaderName>)
    ensures
        r is Ok <==> header_name_of(b@) is Some,
        r matches Ok(n) ==> header_name_of(b@) == Some(n),
        b@.len() == 0 ==> r is Err,
{
    HeaderName::from_bytes(b)
}

/// A byte allowed in a header value: visible ASCII, space, tab, or any byte
/// from 0x80 up.
pub open spec fn is_header_value_byte(b: u8) -> bool {
    (b >= 32 && b != 127) || b == 9
}

pub open spec fn is_header_value(b: Seq<u8>) -> bool {
    forall|i: int| 0 <= i < b.len() ==> is_header_value_byte(#[trigger] b[i])
}

/// Relies on `HeaderValue::from_bytes`: accepts exactly the byte strings whose
/// bytes are all allowed, and keeps the bytes.
#[verifier::external_body]
fn header_value_from_bytes(b: &[u8]) -> (r: Result<HeaderValue, InvalidHeaderValue>)
    ensures
        r is Ok <==> is_header_value(b@),
        r matches Ok(v) ==> v == header_value_of(b@),
{
    HeaderValue::from_bytes(b)
}

/// Relies on `HeaderMap::new`: an empty map.
#[verifier::external_body]
fn header_map_new() -> (r: HeaderMap)
    ensures
        header_map_values(r).dom() == Set::<HeaderName>::empty(),
{
    HeaderMap::new()
}

/// The values of a map after appending `value` under `name`.
pub open spec fn appended(
    m: Map<HeaderName, Seq<HeaderValue>>,
    name: HeaderName,
    value: HeaderValue,
) -> Map<HeaderName, Seq<HeaderValue>> {
    if m.contains_key(name) {
        m.insert(name, m[name].push(value))
    } else {
        m.insert(name, seq![value])
    }
}

/// The most names a header map takes here. `HeaderMap::append` panics once
/// its table would have to grow past 2^15 slots; under its fallback for
/// colliding hashes that can happen at 6554 names, so fewer are admitted.
pub const MAX_HEADER_NAMES: usize = 6553;

/// Relies on `HeaderMap::append`: the value is added after those already held
/// under the name; other names keep theirs. Below the bound on names the
/// table never needs to grow past its largest size, so it does not panic.
#[verifier::external_body]
fn header_map_append(m: &mut HeaderMap, name: &HeaderName, value: &HeaderValue)
    requires
        header_map_values(*old(m)).dom().len() < MAX_HEADER_NAMES,
    ensures
        header_map_values(*final(m)) == appended(header_map_values(*old(m)), *name, *value),
{
    m.append(name.clone(), value.clone());
}

/// Why a header specification or a header value file was refused.
#[derive(Debug, Clone, Copy, PartialEq, Eq, Structural)]
pub enum ConfigurationError {
    /// The specification has no `:` between header name and file path.
    MissingSeparator,
    /// The part before the first `:` is no valid header name.
    InvalidHeaderName,
    /// Line `line` (counted from 0) of the value file is no valid header value.
    InvalidHeaderValue { line: usize },
}

/// The byte that separates the header name from the file path.
pub const SEPARATOR: u8 = 0x3a;

/// The byte that ends a line of a header value file.
pub const NEWLINE: u8 = 0x0a;

/// Whether `i` is the position of the first `:` in `s`.
pub open spec fn is_first_separator(s: Seq<u8>, i: int) -> bool {
    &&& 0 <= i < s.len()
    &&& s[i] == SEPARATOR
    &&& forall|k: int| 0 <= k < i ==> s[k] != SEPARATOR
}

/// A header name together with the path of the file holding its values.
#[derive(Debug)]
pub struct HeaderNamePathPair {
    name: HeaderName,
    path: Vec<u8>,
}

impl HeaderNamePathPair {
    pub closed spec fn spec_name(&self) -> HeaderName {
        self.name
    }

    pub closed spec fn spec_path(&self) -> Seq<u8> {
        self.path@
    }

    /// Parses `name:path`: the name is everything before the first `:`, the
    /// path everything after it.
    pub fn try_from_os_string(s: &[u8]) -> (r: Result<HeaderNamePathPair, ConfigurationError>)
        ensures
            r == Err::<HeaderNamePathPair, _>(ConfigurationError::MissingSeparator) <==> !s@.contains(SEPARATOR),
            forall|i: int| #[trigger] is_first_separator(s@, i) ==> {
                &&& (r == Err::<HeaderNamePathPair, _>(ConfigurationError::InvalidHeaderName) <==> header_name_of(
                    s@.take(i),
                ) is None)
                &&& (r matches Ok(p) ==> Some(p.spec_name()) == header_name_of(s@.take(i)) && p.spec_path()
                    == s@.skip(i + 1))
            },
            s@.len() > 0 && s@[0] == SEPARATOR ==> r == Err::<HeaderNamePathPair, _>(
                ConfigurationError::InvalidHeaderName,
            ),
            r is Ok || r == Err::<HeaderNamePathPair, _>(ConfigurationError::MissingSeparator) || r == Err::<
                HeaderNamePathPair,
                _,
            >(ConfigurationError::InvalidHeaderName),
    {
        let mut i: usize = 0;
        while i < s.len() && s[i] != SEPARATOR
            invariant
                i <= s@.len(),
                forall|k: int| 0 <= k < i ==> s@[k] != SEPARATOR,
            decreases s.len() - i,
        {
            i = i + 1;
        }
        if i == s.len() {
            assert(!s@.contains(SEPARATOR));
            return Err(ConfigurationError::MissingSeparator);
        }
        assert(is_first_separator(s@, i as int));
        assert forall|j: int| #[trigger] is_first_separator(s@, j) implies j == i by {
            if j < i {
                assert(s@[j] != SEPARATOR);
            } else if j > i {
                assert(s@[i as int] != SEPARATOR);
            }
        }
        let mut head: Vec<u8> = Vec::new();
        let mut k: usize = 0;
        while k < i
            invariant
                k <= i < s@.len(),
                head@ == s@.take(k as int),
            decreases i - k,
        {
            head.push(s[k]);
            k = k + 1;
            assert(head@ =~= s@.take(k as int));
        }
        let mut path: Vec<u8> = Vec::new();
        let mut k: usize = i + 1;
        while k < s.len()
            invariant
                i < k <= s@.len(),
                path@ == s@.subrange(i + 1, k as int),
            decreases s.len() - k,
        {
            path.push(s[k]);
            k = k + 1;
            assert(path@ =~= s@.subrange(i + 1, k as int));
        }
        assert(path@ =~= s@.skip(i + 1));
        assert(i == 0 ==> head@.len() == 0);
        match header_name_from_bytes(head.as_slice()) {
            Ok(name) => Ok(HeaderNamePathPair { name, path }),
            Err(_) => Err(ConfigurationError::InvalidHeaderName),
        }
    }

    /// The path of the file holding the header's values.
    pub fn path(&self) -> (r: &Vec<u8>)
        ensures
            r@ == self.spec_path(),
    {
        &self.path
    }
}

/// The lines finished so far and the line being read, after reading `c`.
pub open spec fn split_state(c: Seq<u8>) -> (Seq<Seq<u8>>, Seq<u8>)
    decreases c.len(),
{
    if c.len() == 0 {
        (Seq::empty(), Seq::empty())
    } else {
        let (done, current) = split_state(c.drop_last());
        if c.last() == NEWLINE {
            (done.push(current), Seq::empty())
        } else {
            (done, current.push(c.last()))
        }
    }
}

/// The lines of a file: split at each newline, without the newline; a last
/// line without a newline counts when it is not empty.
pub open spec fn lines_of(c: Seq<u8>) -> Seq<Seq<u8>> {
    let (done, current) = split_state(c);
    if current.len() > 0 {
        done.push(current)
    } else {
        done
    }
}

/// The values a header's file holds, before validation.
pub open spec fn values_of(lines: Seq<Seq<u8>>) -> Seq<HeaderValue> {
    lines.map_values(|l: Seq<u8>| header_value_of(l))
}

/// A header and the values loaded for it, in file order.
#[derive(Debug)]
pub struct HeaderValues {
    name: HeaderName,
    values: Vec<HeaderValue>,
}

impl View for HeaderValues {
    type V = (HeaderName, Seq<HeaderValue>);

    closed spec fn view(&self) -> (HeaderName, Seq<HeaderValue>) {
        (self.name, self.values@)
    }
}

impl HeaderValues {
    /// Loads the values of a header from the contents of its file, one value
    /// per line. The first line that is no valid header value is reported.
    pub fn new(pair: HeaderNamePathPair, contents: &[u8]) -> (r: Result<HeaderValues, ConfigurationError>)
        ensures
            (forall|l: int| 0 <= l < lines_of(contents@).len() ==> is_header_value(
                #[trigger] lines_of(contents@)[l],
            )) ==> (r matches Ok(h) && h@ == (pair.spec_name(), values_of(lines_of(contents@)))),
            r is Ok <==> forall|l: int| 0 <= l < lines_of(contents@).len() ==> is_header_value(
                #[trigger] lines_of(contents@)[l],
            ),
            r matches Err(e) ==> (e matches ConfigurationError::InvalidHeaderValue { line } && line < lines_of(
                contents@,
            ).len() && !is_header_value(lines_of(contents@)[line as int]) && forall|l: int|
                0 <= l < line ==> is_header_value(#[trigger] lines_of(contents@)[l])),
    {
        let ghost c = contents@;
        let mut values: Vec<HeaderValue> = Vec::new();
        let mut current: Vec<u8> = Vec::new();
        let mut i: usize = 0;
        assert(c.take(0) =~= Seq::<u8>::empty());
        while i < contents.len()
            invariant
                c == contents@,
                i <= c.len(),
                current@ == split_state(c.take(i as int)).1,
                values@ == values_of(split_state(c.take(i as int)).0),
                forall|l: int|
                    0 <= l < split_state(c.take(i as int)).0.len() ==> is_header_value(
                        #[trigger] split_state(c.take(i as int)).0[l],
                    ),
            decreases contents.len() - i,
        {
            let ghost st = split_state(c.take(i as int));
            assert(c.take(i + 1).drop_last() =~= c.take(i as int));
            let b = contents[i];
            if b == NEWLINE {
                match header_value_from_bytes(current.as_slice()) {
                    Ok(v) => {
                        values.push(v);
                        current = Vec::new();
                        assert(values_of(st.0.push(st.1)) =~= values_of(st.0).push(header_value_of(st.1)));
                    },
                    Err(_) => {
                        proof {
                            lemma_lines_extend(c, i + 1);
                            assert(split_state(c.take(i + 1)).0 == st.0.push(st.1));
                            assert(lines_of(c)[st.0.len() as int] == st.1);
                            assert(!is_header_value(lines_of(c)[st.0.len() as int]));
                        }
                        return Err(ConfigurationError::InvalidHeaderValue { line: values.len() });
                    },
                }
            } else {
                current.push(b);
            }
            i = i + 1;
        }
        assert(c.take(i as int) =~= c);
        let ghost st = split_state(c);
        if current.len() > 0 {
            match header_value_from_bytes(current.as_slice()) {
                Ok(v) => {
                    values.push(v);
                    assert(values_of(st.0.push(st.1)) =~= values_of(st.0).push(header_value_of(st.1)));
                },
                Err(_) => {
                    assert(lines_of(c)[st.0.len() as int] == st.1);
                    return Err(ConfigurationError::InvalidHeaderValue { line: values.len() });
                },
            }
        }
        Ok(HeaderValues { name: pair.name, values })
    }
}

/// The headers of a slice of loaded headers, each with its values.
pub open spec fn specs_of(s: Seq<HeaderValues>) -> Seq<(HeaderName, Seq<HeaderValue>)> {
    s.map_values(|h: HeaderValues| h@)
}

/// Whether some header has no value at all.
pub open spec fn any_empty(hs: Seq<(HeaderName, Seq<HeaderValue>)>) -> bool {
    exists|j: int| 0 <= j < hs.len() && (#[trigger] hs[j]).1.len() == 0
}

/// Whether no two headers have the same name.
pub open spec fn distinct_names(hs: Seq<(HeaderName, Seq<HeaderValue>)>) -> bool {
    forall|a: int, b: int| 0 <= a < b < hs.len() ==> (#[trigger] hs[a]).0 != (#[trigger] hs[b]).0
}

/// Combination `i` of the headers: each header contributes value `i` modulo
/// its number of values, appended in header order.
pub open spec fn combination(hs: Seq<(HeaderName, Seq<HeaderValue>)>, i: nat) -> Map<HeaderName, Seq<HeaderValue>>
    decreases hs.len(),
{
    if hs.len() == 0 {
        Map::empty()
    } else {
        let (name, values) = hs.last();
        appended(combination(hs.drop_last(), i), name, values[(i % values.len()) as int])
    }
}

/// An endless sequence of header combinations, one per call of `next`: every
/// header's values are walked in a cycle of their own. When some header has
/// no value, or there are more headers than a header map takes
/// ([`MAX_HEADER_NAMES`]), the sequence ends at once.
pub struct HeaderValuesCycle<'a> {
    headers: &'a [HeaderValues],
    cursors: Vec<usize>,
    produced: Ghost<nat>,
}

impl<'a> HeaderValuesCycle<'a> {
    /// The headers being cycled.
    pub closed spec fn headers(&self) -> Seq<(HeaderName, Seq<HeaderValue>)> {
        specs_of(self.headers@)
    }

    /// The number of combinations handed out so far.
    pub closed spec fn produced(&self) -> nat {
        self.produced@
    }

    pub closed spec fn wf(&self) -> bool {
        &&& self.cursors@.len() == self.headers@.len()
        &&& forall|j: int|
            0 <= j < self.headers@.len() && self.headers@[j].values@.len() > 0 ==> #[trigger] self.cursors@[j]
                == self.produced@ % self.headers@[j].values@.len()
    }

    /// The next combination: the one numbered by how many came before it.
    pub fn next(&mut self) -> (r: Option<HeaderMap>)
        requires
            old(self).wf(),
        ensures
            final(self).wf(),
            final(self).headers() == old(self).headers(),
            any_empty(old(self).headers()) ==> r is None && final(self).produced() == old(self).produced(),
            old(self).headers().len() > MAX_HEADER_NAMES ==> r is None
                && final(self).produced() == old(self).produced(),
            !any_empty(old(self).headers()) && old(self).headers().len() <= MAX_HEADER_NAMES ==> (r matches Some(m) && header_map_values(m) == combination(
                old(self).headers(),
                old(self).produced(),
            )),
            !any_empty(old(self).headers()) && old(self).headers().len() <= MAX_HEADER_NAMES 
                ==> final(self).produced() == old(self).produced() + 1,
    {
        let ghost hs = self.headers();
        let ghost p = self.produced@;
        let n = self.headers.len();
        if n > MAX_HEADER_NAMES {
            return None;
        }
        let mut j: usize = 0;
        while j < n
            invariant
                n == self.headers@.len(),
                j <= n,
                hs == specs_of(self.headers@),
                self.wf(),
                *self == *old(self),
                forall|k: int| 0 <= k < j ==> (#[trigger] hs[k]).1.len() > 0,
            decreases n - j,
        {
            if self.headers[j].values.len() == 0 {
                assert(hs[j as int].1.len() == 0);
                return None;
            }
            j = j + 1;
        }
        let mut m = header_map_new();
        assert(header_map_values(m) =~= combination(hs.take(0), p));
        let mut j: usize = 0;
        while j < n
            invariant
                n == self.headers@.len(),
                j <= n,
                hs == specs_of(self.headers@),
                p == self.produced@,
                forall|k: int| 0 <= k < n ==> (#[trigger] hs[k]).1.len() > 0,
                self.cursors@.len() == n,
                forall|k: int| 0 <= k < j ==> #[trigger] self.cursors@[k] == (p + 1) % hs[k].1.len(),
                forall|k: int| j <= k < n ==> #[trigger] self.cursors@[k] == p % hs[k].1.len(),
                header_map_values(m) == combination(hs.take(j as int), p),
                n <= MAX_HEADER_NAMES,
            decreases n - j,
        {
            proof {
                lemma_combination_size(hs.take(j as int), p);
            }
            let h = &self.headers[j];
            let c = self.cursors[j];
            assert(hs[j as int] == h@);
            let k = h.values.len();
            assert(hs.take(j + 1).drop_last() =~= hs.take(j as int));
            header_map_append(&mut m, &h.name, &h.values[c]);
            let next = if c + 1 == k { 0 } else { c + 1 };
            proof {
                lemma_mod_next(p as int, k as int);
            }
            self.cursors.set(j, next);
            j = j + 1;
        }
        assert(hs.take(n as int) =~= hs);
        self.produced = Ghost(p + 1);
        Some(m)
    }
}

/// A cycle over the given headers that has handed out nothing yet.
pub fn cycle_headers<'a>(header_values: &'a [HeaderValues]) -> (r: HeaderValuesCycle<'a>)
    ensures
        r.wf(),
        r.headers() == specs_of(header_values@),
        r.produced() == 0,
{
    let mut cursors: Vec<usize> = Vec::new();
    let mut j: usize = 0;
    while j < header_values.len()
        invariant
            j <= header_values@.len(),
            cursors@.len() == j,
            forall|k: int| 0 <= k < j ==> #[trigger] cursors@[k] == 0,
        decreases header_values.len() - j,
    {
        cursors.push(0);
        j = j + 1;
    }
    let r = HeaderValuesCycle { headers: header_values, cursors, produced: Ghost(0) };
    assert forall|j: int| 0 <= j < header_values@.len() && header_values@[j].values@.len() > 0 implies #[trigger] r.cursors@[j]
        == 0nat % header_values@[j].values@.len() by {
        vstd::arithmetic::div_mod::lemma_small_mod(0, header_values@[j].values@.len());
    }
    r
}

/// A combination holds values under at most as many names as there are
/// headers.
pub proof fn lemma_combination_size(hs: Seq<(HeaderName, Seq<HeaderValue>)>, i: nat)
    ensures
        combination(hs, i).dom().finite(),
        combination(hs, i).dom().len() <= hs.len(),
    decreases hs.len(),
{
    if hs.len() > 0 {
        lemma_combination_size(hs.drop_last(), i);
    }
}

/// A combination holds values under exactly the names of the headers.
pub proof fn lemma_combination_names(hs: Seq<(HeaderName, Seq<HeaderValue>)>, i: nat, name: HeaderName)
    ensures
        combination(hs, i).contains_key(name) <==> exists|k: int| 0 <= k < hs.len() && (#[trigger] hs[k]).0 == name,
    decreases hs.len(),
{
    if hs.len() > 0 {
        let rest = hs.drop_last();
        lemma_combination_names(rest, i, name);
        if exists|k: int| 0 <= k < hs.len() && (#[trigger] hs[k]).0 == name {
            let k = choose|k: int| 0 <= k < hs.len() && (#[trigger] hs[k]).0 == name;
            if k < rest.len() {
                assert(rest[k] == hs[k]);
            }
        }
        if exists|k: int| 0 <= k < rest.len() && (#[trigger] rest[k]).0 == name {
            let k = choose|k: int| 0 <= k < rest.len() && (#[trigger] rest[k]).0 == name;
            assert(hs[k] == rest[k]);
        }
    }
}

/// Combination `i` gives a header whose name no other header has exactly one
/// value: the one at position `i` modulo its number of values.
pub proof fn lemma_combination_value(hs: Seq<(HeaderName, Seq<HeaderValue>)>, i: nat, j: int)
    requires
        0 <= j < hs.len(),
        hs[j].1.len() > 0,
        forall|k: int| 0 <= k < hs.len() && k != j ==> (#[trigger] hs[k]).0 != hs[j].0,
    ensures
        combination(hs, i).contains_key(hs[j].0),
        combination(hs, i)[hs[j].0] == seq![hs[j].1[(i % hs[j].1.len()) as int]],
    decreases hs.len(),
{
    let rest = hs.drop_last();
    if j == hs.len() - 1 {
        lemma_combination_names(rest, i, hs[j].0);
        if exists|k: int| 0 <= k < rest.len() && (#[trigger] rest[k]).0 == hs[j].0 {
            let k = choose|k: int| 0 <= k < rest.len() && (#[trigger] rest[k]).0 == hs[j].0;
            assert(hs[k] == rest[k]);
        }
    } else {
        assert forall|k: int| 0 <= k < rest.len() && k != j implies (#[trigger] rest[k]).0 != rest[j].0 by {
            assert(rest[k] == hs[k]);
        }
        lemma_combination_value(rest, i, j);
        assert(hs.last().0 != hs[j].0);
    }
}

/// Worker `i` sends, for a header loaded from a file with `k` lines and
/// named by no other header, the value of line `i mod k` of that file.
pub proof fn lemma_cycle_follows_file(
    hs: Seq<(HeaderName, Seq<HeaderValue>)>,
    contents: Seq<u8>,
    i: nat,
    j: int,
)
    requires
        0 <= j < hs.len(),
        distinct_names(hs),
        hs[j].1 == values_of(lines_of(contents)),
        lines_of(contents).len() > 0,
    ensures
        combination(hs, i)[hs[j].0] == seq![
            header_value_of(lines_of(contents)[(i % lines_of(contents).len()) as int]),
        ],
{
    assert forall|k: int| 0 <= k < hs.len() && k != j implies (#[trigger] hs[k]).0 != hs[j].0 by {
        if k < j {
            assert(hs[k].0 != hs[j].0);
        } else {
            assert(hs[j].0 != hs[k].0);
        }
    }
    lemma_combination_value(hs, i, j);
}

proof fn lemma_mod_next(p: int, k: int)
    requires
        p >= 0,
        k > 0,
    ensures
        p % k + 1 == k ==> (p + 1) % k == 0,
        p % k + 1 < k ==> (p + 1) % k == p % k + 1,
        p % k + 1 <= k,
{
    vstd::arithmetic::div_mod::lemma_fundamental_div_mod(p, k);
    let q = p / k;
    let r = p % k;
    assert(p == q * k + r) by (nonlinear_arith)
        requires
            p == k * q + r,
    ;
    if r + 1 == k {
        assert(p + 1 == (q + 1) * k + 0) by (nonlinear_arith)
            requires
                p == q * k + r,
                r + 1 == k,
        ;
        vstd::arithmetic::div_mod::lemma_fundamental_div_mod_converse(p + 1, k, q + 1, 0);
    } else {
        assert(p + 1 == q * k + (r + 1));
        vstd::arithmetic::div_mod::lemma_fundamental_div_mod_converse(p + 1, k, q, r + 1);
    }
}

/// The lines finished after reading a prefix of a file are the first lines
/// of the whole file.
proof fn lemma_lines_extend(c: Seq<u8>, j: int)
    requires
        0 <= j <= c.len(),
    ensures
        split_state(c.take(j)).0.len() <= split_state(c).0.len(),
        forall|l: int|
            0 <= l < split_state(c.take(j)).0.len() ==> #[trigger] split_state(c).0[l] == split_state(c.take(j)).0[l],
        split_state(c).0.len() <= lines_of(c).len(),
        forall|l: int| 0 <= l < split_state(c).0.len() ==> #[trigger] lines_of(c)[l] == split_state(c).0[l],
    decreases c.len(),
{
    if j == c.len() {
        assert(c.take(j) =~= c);
    } else {
        let d = c.drop_last();
        assert(d.take(j) =~= c.take(j));
        lemma_lines_extend(d, j);
    }
}

} // verus!
