//! The publisher authorisation table: a read-only map from authorisation
//! token to publisher name, with an exact lookup and a hybrid-token lookup
//! that matches on the token's first twenty-two characters.

use vstd::prelude::*;
use vstd::string::StrSliceExecFns;

verus! {

/// One publisher, as listed publicly.
pub struct Publisher {
    pub name: String,
}

/// One authorisation record: a publisher name and its token value.
pub struct AuthRecord {
    pub name: String,
    pub authval: String,
}

/// The mathematical shape of an authorisation record.
pub ghost struct AuthRecordModel {
    pub name: Seq<char>,
    pub authval: Seq<char>,
}

impl View for AuthRecord {
    type V = AuthRecordModel;

    open spec fn view(&self) -> AuthRecordModel {
        AuthRecordModel { name: self.name@, authval: self.authval@ }
    }
}

/// How many leading characters of a hybrid token are matched.
pub const HYBRID_PREFIX_LEN: usize = 22;

/// The view of an optional string.
pub open spec fn opt_view(o: Option<String>) -> Option<Seq<char>> {
    match o {
        None => None,
        Some(s) => Some(s@),
    }
}

/// The publisher names of a record sequence, in order.
pub open spec fn names_of(rs: Seq<AuthRecordModel>) -> Seq<Seq<char>> {
    rs.map_values(|r: AuthRecordModel| r.name)
}

/// The names held by a vector of publishers, in order.
pub open spec fn pubs_view(v: Seq<Publisher>) -> Seq<Seq<char>> {
    v.map_values(|p: Publisher| p.name@)
}

/// The name on the first record whose token equals `tok`, if any.
pub open spec fn spec_first_exact(rs: Seq<AuthRecordModel>, tok: Seq<char>) -> Option<Seq<char>>
    decreases rs.len(),
{
    if rs.len() == 0 {
        None
    } else if rs[0].authval == tok {
        Some(rs[0].name)
    } else {
        spec_first_exact(rs.drop_first(), tok)
    }
}

/// Whether a stored token matches a hybrid token: both hold at least
/// twenty-two characters and agree on the first twenty-two.
pub open spec fn hybrid_match(authval: Seq<char>, tok: Seq<char>) -> bool {
    authval.len() >= HYBRID_PREFIX_LEN && tok.len() >= HYBRID_PREFIX_LEN && authval.take(
        HYBRID_PREFIX_LEN as int,
    ) == tok.take(HYBRID_PREFIX_LEN as int)
}

/// The name on the first record whose token hybrid-matches `tok`, if any.
pub open spec fn spec_first_hybrid(rs: Seq<AuthRecordModel>, tok: Seq<char>) -> Option<Seq<char>>
    decreases rs.len(),
{
    if rs.len() == 0 {
        None
    } else if hybrid_match(rs[0].authval, tok) {
        Some(rs[0].name)
    } else {
        spec_first_hybrid(rs.drop_first(), tok)
    }
}

/// The authorisation table, populated once at start and read-only afterwards.
pub struct AuthTable {
    records: Vec<AuthRecord>,
}

impl View for AuthTable {
    type V = Seq<AuthRecordModel>;

    closed spec fn view(&self) -> Seq<AuthRecordModel> {
        self.records@.map_values(|r: AuthRecord| r@)
    }
}

impl AuthTable {
    /// An empty table.
    pub fn new() -> (t: AuthTable)
        ensures
            t@ == Seq::<AuthRecordModel>::empty(),
    {
        let t = AuthTable { records: Vec::new() };
        proof {
            assert(t@ =~= Seq::<AuthRecordModel>::empty());
        }
        t
    }

    /// Appends one record.
    pub fn add_record(&mut self, name: String, authval: String)
        ensures
            final(self)@ == old(self)@.push(
                AuthRecordModel { name: name@, authval: authval@ },
            ),
    {
        let ghost pre = self@;
        self.records.push(AuthRecord { name, authval });
        proof {
            assert(self@ =~= pre.push(self@.last()));
        }
    }

    /// How many records the table holds.
    pub fn len(&self) -> (n: usize)
        ensures
            n == self@.len(),
    {
        self.records.len()
    }

    /// The name of the publisher whose token equals the authorisation
    /// header, if any; the first matching record decides.
    pub fn check_auth(&self, authstring: &str) -> (r: Option<String>)
        ensures
            opt_view(r) == spec_first_exact(self@, authstring@),
    {
        let n = self.records.len();
        proof {
            assert(self@.skip(0) =~= self@);
        }
        for i in 0..n
            invariant
                n == self.records.len(),
                spec_first_exact(self@.skip(i as int), authstring@) == spec_first_exact(
                    self@,
                    authstring@,
                ),
        {
            proof {
                assert(self@.skip(i as int)[0] == self@[i as int]);
                assert(self@.skip(i as int).drop_first() =~= self@.skip(i as int + 1));
            }
            if crate::text::str_eq(self.records[i].authval.as_str(), authstring) {
                return Some(self.records[i].name.clone());
            }
        }
        proof {
            assert(self@.skip(n as int).len() == 0);
        }
        None
    }

    /// The name of the publisher whose stored token begins with the first
    /// twenty-two characters of the authorisation header, if any; the first
    /// matching record decides.  A header shorter than twenty-two characters
    /// matches nothing.
    pub fn check_auth_hybrid(&self, authstring: &str) -> (r: Option<String>)
        ensures
            opt_view(r) == spec_first_hybrid(self@, authstring@),
    {
        if authstring.unicode_len() < HYBRID_PREFIX_LEN {
            proof {
                lemma_hybrid_none_short(self@, authstring@);
            }
            return None;
        }
        let n = self.records.len();
        proof {
            assert(self@.skip(0) =~= self@);
        }
        for i in 0..n
            invariant
                n == self.records.len(),
                authstring@.len() >= HYBRID_PREFIX_LEN,
                spec_first_hybrid(self@.skip(i as int), authstring@) == spec_first_hybrid(
                    self@,
                    authstring@,
                ),
        {
            proof {
                assert(self@.skip(i as int)[0] == self@[i as int]);
                assert(self@.skip(i as int).drop_first() =~= self@.skip(i as int + 1));
            }
            if hybrid_match_exec(self.records[i].authval.as_str(), authstring) {
                return Some(self.records[i].name.clone());
            }
        }
        proof {
            assert(self@.skip(n as int).len() == 0);
        }
        None
    }

    /// Every publisher name in the table, in insertion order.
    pub fn get_publishers(&self) -> (r: Vec<Publisher>)
        ensures
            pubs_view(r@) == names_of(self@),
    {
        let mut out: Vec<Publisher> = Vec::new();
        let n = self.records.len();
        for i in 0..n
            invariant
                n == self.records.len(),
                pubs_view(out@) =~= names_of(self@.take(i as int)),
        {
            let ghost pre = out@;
            out.push(Publisher { name: self.records[i].name.clone() });
            proof {
                assert(out@ == pre.push(out@.last()));
                assert(self@.take(i as int + 1) =~= self@.take(i as int).push(self@[i as int]));
                lemma_names_push(self@.take(i as int), self@[i as int]);
                lemma_pubs_push(pre, out@.last());
                assert(out@.last().name@ == self@[i as int].name);
                assert(pubs_view(out@) =~= names_of(self@.take(i as int + 1)));
            }
        }
        proof {
            assert(self@.take(n as int) =~= self@);
        }
        out
    }
}

proof fn lemma_pubs_push(v: Seq<Publisher>, p: Publisher)
    ensures
        pubs_view(v.push(p)) =~= pubs_view(v).push(p.name@),
{
}

proof fn lemma_names_push(s: Seq<AuthRecordModel>, r: AuthRecordModel)
    ensures
        names_of(s.push(r)) =~= names_of(s).push(r.name),
{
}

/// Whether `authval` hybrid-matches `tok`, as executable code.
fn hybrid_match_exec(authval: &str, tok: &str) -> (r: bool)
    ensures
        r == hybrid_match(authval@, tok@),
{
    if authval.unicode_len() < HYBRID_PREFIX_LEN || tok.unicode_len() < HYBRID_PREFIX_LEN {
        return false;
    }
    for i in 0..HYBRID_PREFIX_LEN
        invariant
            authval@.len() >= HYBRID_PREFIX_LEN,
            tok@.len() >= HYBRID_PREFIX_LEN,
            forall|j: int| 0 <= j < i ==> authval@[j] == tok@[j],
    {
        if authval.get_char(i) != tok.get_char(i) {
            proof {
                assert(authval@.take(HYBRID_PREFIX_LEN as int)[i as int] != tok@.take(
                    HYBRID_PREFIX_LEN as int,
                )[i as int]);
            }
            return false;
        }
    }
    proof {
        assert(authval@.take(HYBRID_PREFIX_LEN as int) =~= tok@.take(HYBRID_PREFIX_LEN as int));
    }
    true
}

proof fn lemma_hybrid_none_short(rs: Seq<AuthRecordModel>, tok: Seq<char>)
    requires
        tok.len() < HYBRID_PREFIX_LEN,
    ensures
        spec_first_hybrid(rs, tok) is None,
    decreases rs.len(),
{
    if rs.len() > 0 {
        lemma_hybrid_none_short(rs.drop_first(), tok);
    }
}

} // verus!
