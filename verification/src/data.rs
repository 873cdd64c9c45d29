//! The canonical identity state: rotation keys, verification methods,
//! aliases and service endpoints.

use vstd::prelude::*;
use vstd::string::StrSliceExecFns;
use vstd::string::StringExecFns;

verus! {

/// A service record: its declared type and its endpoint URL.
#[derive(Debug, Clone, PartialEq, Eq)]
pub struct Service {
    pub service_type: String,
    pub endpoint: String,
}

/// The mathematical shape of a [`Service`].
#[verifier::ext_equal]
pub struct ServiceV {
    pub service_type: Seq<char>,
    pub endpoint: Seq<char>,
}

impl View for Service {
    type V = ServiceV;

    open spec fn view(&self) -> ServiceV {
        ServiceV { service_type: self.service_type@, endpoint: self.endpoint@ }
    }
}

impl DeepView for Service {
    type V = ServiceV;

    open spec fn deep_view(&self) -> ServiceV {
        self.view()
    }
}

/// The canonical identity state carried by a change operation.
///
/// The two maps are association lists; the wire form sorts map keys
/// canonically, so well-formed data keeps them in that order with no key
/// repeated.
#[derive(Debug, Clone, PartialEq, Eq)]
pub struct PlcData {
    /// `did:key` strings in authority order: position 0 is the strongest.
    pub rotation_keys: Vec<String>,
    /// Service-name to `did:key`; the entry `atproto` is the signing key.
    pub verification_methods: Vec<(String, String)>,
    /// URIs, primary alias first; handles appear as `at://<handle>`.
    pub also_known_as: Vec<String>,
    /// Service-kind to record; `atproto_pds` points at the user's PDS.
    pub services: Vec<(String, Service)>,
}

/// The mathematical shape of a [`PlcData`].
#[verifier::ext_equal]
pub struct PlcDataV {
    pub rotation_keys: Seq<Seq<char>>,
    pub verification_methods: Seq<(Seq<char>, Seq<char>)>,
    pub also_known_as: Seq<Seq<char>>,
    pub services: Seq<(Seq<char>, ServiceV)>,
}

impl View for PlcData {
    type V = PlcDataV;

    open spec fn view(&self) -> PlcDataV {
        PlcDataV {
            rotation_keys: self.rotation_keys.deep_view(),
            verification_methods: self.verification_methods.deep_view(),
            also_known_as: self.also_known_as.deep_view(),
            services: self.services.deep_view(),
        }
    }
}

impl DeepView for PlcData {
    type V = PlcDataV;

    open spec fn deep_view(&self) -> PlcDataV {
        self.view()
    }
}

/// The identity state of one DID.
#[derive(Debug, Clone, PartialEq, Eq)]
pub struct State {
    pub did: String,
    pub plc: PlcData,
}

/// The mathematical shape of a [`State`].
#[verifier::ext_equal]
pub struct StateV {
    pub did: Seq<char>,
    pub plc: PlcDataV,
}

impl View for State {
    type V = StateV;

    open spec fn view(&self) -> StateV {
        StateV { did: self.did@, plc: self.plc@ }
    }
}

impl DeepView for State {
    type V = StateV;

    open spec fn deep_view(&self) -> StateV {
        self.view()
    }
}

proof fn lemma_pair_find_skip(pairs: Seq<(Seq<char>, Seq<char>)>, lo: int, j: int, key: Seq<char>)
    requires
        0 <= lo <= j <= pairs.len(),
        forall|k: int| lo <= k < j ==> pairs[k].0 != key,
    ensures
        spec_pair_find(pairs, lo, key) == spec_pair_find(pairs, j, key),
    decreases j - lo,
{
    if lo < j {
        lemma_pair_find_skip(pairs, lo + 1, j, key);
    }
}

/// Finds the first pair under a key in an association list.
#[verifier::loop_isolation(false)]
pub fn pair_find(pairs: &Vec<(String, String)>, key: &String) -> (r: Option<usize>)
    ensures
        match r {
            Some(i) => i < pairs@.len() && spec_pair_find(pairs.deep_view(), 0, key@) == Some(
                i as int,
            ),
            None => spec_pair_find(pairs.deep_view(), 0, key@) is None,
        },
{
    let ghost pv = pairs.deep_view();
    proof {
        assert forall|k: int| 0 <= k < pairs@.len() implies pv[k] == (
        pairs@[k].0@,
        pairs@[k].1@,
        ) by {
            assert(pairs.deep_view()[k] == pairs@[k].deep_view());
        }
    }
    let mut j: usize = 0;
    while j < pairs.len()
        invariant
            j <= pairs@.len(),
            forall|k: int| 0 <= k < j ==> pv[k].0 != key@,
        decreases pairs@.len() - j,
    {
        if pairs[j].0 == *key {
            proof {
                lemma_pair_find_skip(pv, 0, j as int, key@);
            }
            return Some(j);
        }
        j = j + 1;
    }
    proof {
        lemma_pair_find_skip(pv, 0, pv.len() as int, key@);
    }
    None
}

proof fn lemma_wf_pds_skip(pairs: Seq<(Seq<char>, ServiceV)>, lo: int, j: int)
    requires
        0 <= lo <= j <= pairs.len(),
        forall|k: int| lo <= k < j ==> !(pairs[k].0 == "atproto_pds"@ && (
        #[trigger] pairs[k].1).service_type == "AtprotoPersonalDataServer"@),
    ensures
        spec_wf_pds_find(pairs, lo) == spec_wf_pds_find(pairs, j),
    decreases j - lo,
{
    if lo < j {
        lemma_wf_pds_skip(pairs, lo + 1, j);
    }
}

/// Finds the well-formed PDS record in a services list.
#[verifier::loop_isolation(false)]
pub fn wf_pds_find(pairs: &Vec<(String, Service)>) -> (r: Option<usize>)
    ensures
        match r {
            Some(i) => i < pairs@.len() && spec_wf_pds_find(pairs.deep_view(), 0) == Some(i as int),
            None => spec_wf_pds_find(pairs.deep_view(), 0) is None,
        },
{
    let ghost pv = pairs.deep_view();
    proof {
        assert forall|k: int| 0 <= k < pairs@.len() implies pv[k] == (
        pairs@[k].0@,
        pairs@[k].1@,
        ) by {
            assert(pairs.deep_view()[k] == pairs@[k].deep_view());
        }
    }
    let kind_want = String::from_str("atproto_pds");
    let type_want = String::from_str("AtprotoPersonalDataServer");
    let mut j: usize = 0;
    while j < pairs.len()
        invariant
            j <= pairs@.len(),
            forall|k: int| 0 <= k < j ==> !(pv[k].0 == "atproto_pds"@ && (
            #[trigger] pv[k].1).service_type == "AtprotoPersonalDataServer"@),
        decreases pairs@.len() - j,
    {
        if pairs[j].0 == kind_want && pairs[j].1.service_type == type_want {
            proof {
                lemma_wf_pds_skip(pv, 0, j as int);
            }
            return Some(j);
        }
        j = j + 1;
    }
    proof {
        lemma_wf_pds_skip(pv, 0, pv.len() as int);
    }
    None
}

/// Strips the `at://` scheme from a URI, if it carries one.
pub fn strip_at_scheme(s: &String) -> (r: Option<String>)
    ensures
        match r {
            Some(h) => spec_at_handle(s@) == Some(h@),
            None => spec_at_handle(s@) is None,
        },
{
    let n = s.as_str().unicode_len();
    if n < 5 {
        return None;
    }
    proof {
        reveal_strlit("at://");
    }
    if s.as_str().get_char(0) == 'a' && s.as_str().get_char(1) == 't' && s.as_str().get_char(2)
        == ':' && s.as_str().get_char(3) == '/' && s.as_str().get_char(4) == '/' {
        proof {
            assert(s@.take(5) =~= "at://"@);
        }
        let h = s.as_str().substring_char(5, n);
        proof {
            assert(h@ =~= s@.skip(5));
        }
        Some(String::from_str(h))
    } else {
        proof {
            assert(s@.take(5) != "at://"@) by {
                if s@.take(5) == "at://"@ {
                    assert(s@.take(5)[0] == 'a' && s@.take(5)[1] == 't' && s@.take(5)[2] == ':'
                        && s@.take(5)[3] == '/' && s@.take(5)[4] == '/');
                }
            }
        }
        None
    }
}


/// First pair at or after `lo` under exactly this key.
pub open spec fn spec_pair_find(
    pairs: Seq<(Seq<char>, Seq<char>)>,
    lo: int,
    key: Seq<char>,
) -> Option<int>
    decreases pairs.len() - lo,
{
    if lo < 0 || lo >= pairs.len() {
        None
    } else if pairs[lo].0 == key {
        Some(lo)
    } else {
        spec_pair_find(pairs, lo + 1, key)
    }
}

/// First service pair at or after `lo` that is the well-formed PDS record:
/// kind `atproto_pds` with type `AtprotoPersonalDataServer`. Malformed
/// variants stay in the generic service rows so reassembled CIDs match.
pub open spec fn spec_wf_pds_find(pairs: Seq<(Seq<char>, ServiceV)>, lo: int) -> Option<int>
    decreases pairs.len() - lo,
{
    if lo < 0 || lo >= pairs.len() {
        None
    } else if pairs[lo].0 == "atproto_pds"@ && pairs[lo].1.service_type
        == "AtprotoPersonalDataServer"@ {
        Some(lo)
    } else {
        spec_wf_pds_find(pairs, lo + 1)
    }
}

/// A URI with its `at://` scheme removed, when it has one.
pub open spec fn spec_at_handle(s: Seq<char>) -> Option<Seq<char>> {
    if s.len() >= 5 && s.take(5) == "at://"@ {
        Some(s.skip(5))
    } else {
        None
    }
}


// ---------------------------------------------------------------------------
// Reading the identity state
// ---------------------------------------------------------------------------

/// First position at or after `lo` of this character.
pub open spec fn spec_find_char(s: Seq<char>, lo: int, c: char) -> Option<int>
    decreases s.len() - lo,
{
    if lo < 0 || lo >= s.len() {
        None
    } else if s[lo] == c {
        Some(lo)
    } else {
        spec_find_char(s, lo + 1, c)
    }
}

proof fn lemma_find_char_skip(s: Seq<char>, lo: int, j: int, c: char)
    requires
        0 <= lo <= j <= s.len(),
        forall|k: int| lo <= k < j ==> s[k] != c,
    ensures
        spec_find_char(s, lo, c) == spec_find_char(s, j, c),
    decreases j - lo,
{
    if lo < j {
        lemma_find_char_skip(s, lo + 1, j, c);
    }
}

/// Finds the first occurrence of a character at or after `from`.
#[verifier::loop_isolation(false)]
pub fn find_char_from(s: &String, from: usize, c: char) -> (r: Option<usize>)
    requires
        from <= s@.len(),
    ensures
        match r {
            Some(i) => from <= i < s@.len() && spec_find_char(s@, from as int, c) == Some(
                i as int,
            ),
            None => spec_find_char(s@, from as int, c) is None,
        },
{
    let n = s.as_str().unicode_len();
    let mut j: usize = from;
    while j < n
        invariant
            from <= j <= s@.len(),
            n == s@.len(),
            forall|k: int| from <= k < j ==> s@[k] != c,
        decreases n - j,
    {
        if s.as_str().get_char(j) == c {
            proof {
                lemma_find_char_skip(s@, from as int, j as int, c);
            }
            return Some(j);
        }
        j = j + 1;
    }
    proof {
        lemma_find_char_skip(s@, from as int, s@.len() as int, c);
    }
    None
}

/// The text up to its first slash, or all of it.
pub open spec fn spec_before_slash(s: Seq<char>) -> Seq<char> {
    match spec_find_char(s, 0, '/') {
        Some(i) => s.take(i),
        None => s,
    }
}

/// Cuts the text at its first slash.
#[verifier::loop_isolation(false)]
pub fn before_slash(s: &String) -> (r: String)
    ensures
        r@ == spec_before_slash(s@),
{
    let n = s.as_str().unicode_len();
    let mut j: usize = 0;
    while j < n
        invariant
            j <= s@.len(),
            forall|k: int| 0 <= k < j ==> s@[k] != '/',
        decreases s@.len() - j,
    {
        if s.as_str().get_char(j) == '/' {
            proof {
                lemma_find_char_skip(s@, 0, j as int, '/');
            }
            let cut = s.as_str().substring_char(0, j);
            return String::from_str(cut);
        }
        j = j + 1;
    }
    proof {
        lemma_find_char_skip(s@, 0, s@.len() as int, '/');
    }
    s.clone()
}

/// The primary handle of an alias list: the first `at://` URI, with the
/// scheme removed and cut at the first slash.
pub open spec fn spec_handle_of(aka: Seq<Seq<char>>, lo: int) -> Option<Seq<char>>
    decreases aka.len() - lo,
{
    if lo < 0 || lo >= aka.len() {
        None
    } else {
        match spec_at_handle(aka[lo]) {
            Some(rest) => Some(spec_before_slash(rest)),
            None => spec_handle_of(aka, lo + 1),
        }
    }
}

proof fn lemma_handle_of_skip(aka: Seq<Seq<char>>, lo: int, j: int)
    requires
        0 <= lo <= j <= aka.len(),
        forall|k: int| lo <= k < j ==> spec_at_handle(#[trigger] aka[k]) is None,
    ensures
        spec_handle_of(aka, lo) == spec_handle_of(aka, j),
    decreases j - lo,
{
    if lo < j {
        lemma_handle_of_skip(aka, lo + 1, j);
    }
}

impl State {
    /// The DID this state belongs to.
    pub fn did(&self) -> (r: &String)
        ensures
            r@ == self@.did,
    {
        &self.did
    }

    /// The canonical identity state itself.
    pub fn inner_data(&self) -> (r: &PlcData)
        ensures
            r@ == self@.plc,
    {
        &self.plc
    }

    /// Returns the current primary handle for this DID.
    #[verifier::loop_isolation(false)]
    pub fn handle(&self) -> (r: Option<String>)
        ensures
            match r {
                Some(h) => spec_handle_of(self@.plc.also_known_as, 0) == Some(h@),
                None => spec_handle_of(self@.plc.also_known_as, 0) is None,
            },
    {
        let ghost av = self.plc.also_known_as.deep_view();
        proof {
            assert forall|k: int| 0 <= k < self.plc.also_known_as@.len() implies av[k]
                == self.plc.also_known_as@[k]@ by {
                assert(self.plc.also_known_as.deep_view()[k]
                    == self.plc.also_known_as@[k].deep_view());
            }
        }
        let mut j: usize = 0;
        while j < self.plc.also_known_as.len()
            invariant
                j <= av.len(),
                forall|k: int| 0 <= k < j ==> spec_at_handle(#[trigger] av[k]) is None,
            decreases av.len() - j,
        {
            match strip_at_scheme(&self.plc.also_known_as[j]) {
                Some(rest) => {
                    proof {
                        lemma_handle_of_skip(av, 0, j as int);
                    }
                    return Some(before_slash(&rest));
                },
                None => {
                },
            }
            j = j + 1;
        }
        proof {
            lemma_handle_of_skip(av, 0, av.len() as int);
        }
        None
    }

    /// Returns the signing key: the `atproto` verification method.
    pub fn signing_key(&self) -> (r: Option<&String>)
        ensures
            match r {
                Some(key) => spec_pair_find(self@.plc.verification_methods, 0, "atproto"@)
                    matches Some(m) && key@ == self@.plc.verification_methods[m].1,
                None => spec_pair_find(self@.plc.verification_methods, 0, "atproto"@) is None,
            },
    {
        let atproto = String::from_str("atproto");
        match pair_find(&self.plc.verification_methods, &atproto) {
            Some(m) => {
                proof {
                    assert(self.plc.verification_methods.deep_view()[m as int]
                        == self.plc.verification_methods@[m as int].deep_view());
                }
                Some(&self.plc.verification_methods[m].1)
            },
            None => None,
        }
    }

    /// Returns the rotation keys, in authority order.
    pub fn rotation_keys(&self) -> (r: &Vec<String>)
        ensures
            r.deep_view() == self@.plc.rotation_keys,
    {
        &self.plc.rotation_keys
    }

    /// Returns the endpoint of the currently configured PDS: the well-formed
    /// `atproto_pds` service record.
    pub fn endpoint(&self) -> (r: Option<&String>)
        ensures
            match r {
                Some(ep) => spec_wf_pds_find(self@.plc.services, 0) matches Some(m) && ep@
                    == self@.plc.services[m].1.endpoint,
                None => spec_wf_pds_find(self@.plc.services, 0) is None,
            },
    {
        match wf_pds_find(&self.plc.services) {
            Some(m) => {
                proof {
                    assert(self.plc.services.deep_view()[m as int]
                        == self.plc.services@[m as int].deep_view());
                }
                Some(&self.plc.services[m].1.endpoint)
            },
            None => None,
        }
    }
}


/// Copies an association list of strings.
pub fn clone_pairs(v: &Vec<(String, String)>) -> (r: Vec<(String, String)>)
    ensures
        r.deep_view() == v.deep_view(),
{
    let mut r: Vec<(String, String)> = Vec::new();
    let mut t: usize = 0;
    while t < v.len()
        invariant
            t <= v@.len(),
            r.deep_view() =~= v.deep_view().take(t as int),
        decreases v@.len() - t,
    {
        proof {
            assert(v.deep_view()[t as int] == v@[t as int].deep_view());
        }
        crate::codec::push_deep(&mut r, (v[t].0.clone(), v[t].1.clone()));
        proof {
            assert(r.deep_view() =~= v.deep_view().take(t as int + 1));
        }
        t = t + 1;
    }
    proof {
        assert(v.deep_view().take(v@.len() as int) =~= v.deep_view());
    }
    r
}

/// Copies a services list.
pub fn clone_services(v: &Vec<(String, Service)>) -> (r: Vec<(String, Service)>)
    ensures
        r.deep_view() == v.deep_view(),
{
    let mut r: Vec<(String, Service)> = Vec::new();
    let mut t: usize = 0;
    while t < v.len()
        invariant
            t <= v@.len(),
            r.deep_view() =~= v.deep_view().take(t as int),
        decreases v@.len() - t,
    {
        proof {
            assert(v.deep_view()[t as int] == v@[t as int].deep_view());
        }
        crate::codec::push_deep(
            &mut r,
            (
                v[t].0.clone(),
                Service {
                    service_type: v[t].1.service_type.clone(),
                    endpoint: v[t].1.endpoint.clone(),
                },
            ),
        );
        proof {
            assert(r.deep_view() =~= v.deep_view().take(t as int + 1));
        }
        t = t + 1;
    }
    proof {
        assert(v.deep_view().take(v@.len() as int) =~= v.deep_view());
    }
    r
}

/// Copies a list of strings.
pub fn clone_strings(v: &Vec<String>) -> (r: Vec<String>)
    ensures
        r.deep_view() == v.deep_view(),
{
    let mut r: Vec<String> = Vec::new();
    let mut t: usize = 0;
    while t < v.len()
        invariant
            t <= v@.len(),
            r.deep_view() =~= v.deep_view().take(t as int),
        decreases v@.len() - t,
    {
        proof {
            assert(v.deep_view()[t as int] == v@[t as int].deep_view());
        }
        crate::codec::push_deep(&mut r, v[t].clone());
        proof {
            assert(r.deep_view() =~= v.deep_view().take(t as int + 1));
        }
        t = t + 1;
    }
    proof {
        assert(v.deep_view().take(v@.len() as int) =~= v.deep_view());
    }
    r
}

impl PlcData {
    /// A deep copy of this state.
    pub fn clone_data(&self) -> (r: PlcData)
        ensures
            r@ == self@,
    {
        let r = PlcData {
            rotation_keys: clone_strings(&self.rotation_keys),
            verification_methods: clone_pairs(&self.verification_methods),
            also_known_as: clone_strings(&self.also_known_as),
            services: clone_services(&self.services),
        };
        proof {
            assert(r@ =~~= self@);
        }
        r
    }
}


/// The text with the given prefix removed, when it carries it.
pub open spec fn spec_strip_prefix(s: Seq<char>, p: Seq<char>) -> Option<Seq<char>> {
    if s.len() >= p.len() && s.take(p.len() as int) == p {
        Some(s.skip(p.len() as int))
    } else {
        None
    }
}

/// Removes the given prefix, if the text carries it.
#[verifier::loop_isolation(false)]
pub fn strip_prefix_str(s: &String, p: &str) -> (r: Option<String>)
    ensures
        match r {
            Some(rest) => spec_strip_prefix(s@, p@) == Some(rest@),
            None => spec_strip_prefix(s@, p@) is None,
        },
{
    let pn = p.unicode_len();
    let n = s.as_str().unicode_len();
    if n < pn {
        return None;
    }
    let mut k: usize = 0;
    while k < pn
        invariant
            k <= pn,
            pn == p@.len(),
            n == s@.len(),
            pn <= n,
            forall|q: int| 0 <= q < k ==> s@[q] == p@[q],
        decreases pn - k,
    {
        if s.as_str().get_char(k) != p.get_char(k) {
            proof {
                assert(s@.take(pn as int)[k as int] != p@[k as int]);
                assert(s@.take(pn as int) != p@);
            }
            return None;
        }
        k = k + 1;
    }
    proof {
        assert(s@.take(pn as int) =~= p@);
    }
    let rest = s.as_str().substring_char(pn, n);
    proof {
        assert(rest@ =~= s@.skip(pn as int));
    }
    Some(String::from_str(rest))
}

} // verus!
