//! The registry of key shares and the threshold signature built on it.
use crate::bls::{
    public_of, signature_of, signature_valid, BLSSignature, KeyPairG2, PrimitiveError,
};
use crate::field::{reduce, ORDER};
use crate::group::{GE1, GE2};
use crate::lagrange::{
    interpolate_at_zero, lagrange_interpolate_f0_X, lagrange_interpolate_f0_sig,
    lagrange_interpolate_f0_x, points_error, public_values, sample_points, scalar_values,
    signature_values,
};
use crate::polynomial::{evaluate, evaluate_at, residues};
use crate::scalar::FE2;
use vstd::prelude::*;

verus! {

/// Why an operation of the threshold layer was refused.
#[derive(Clone, Copy, Debug, PartialEq, Eq, Structural)]
pub enum ThresholdError {
    /// The threshold is zero or exceeds the number of parties.
    InvalidThreshold,
    /// The number of parties does not leave every party an evaluation point
    /// of its own in the scalar field.
    TooManyParties,
    /// The quorum has no member.
    EmptyQuorum,
    /// The quorum names a party that the registry does not hold.
    IndexOutOfRange,
    /// The quorum names a party twice.
    DuplicateIndex,
    /// The quorum has fewer members than the threshold.
    QuorumTooSmall,
    /// The underlying primitive failed.
    Primitive(PrimitiveError),
}

/// The key shares of `n` parties, of which any `t` can sign.
#[derive(Debug)]
pub struct ThresholdKeyPairs {
    keys: Vec<KeyPairG2>,
    n: usize,
    t: usize,
}

/// A combined signature with the quorum that produced it.
#[derive(Debug)]
pub struct ThresholdSignature {
    pub sig: BLSSignature,
    pub quorum: Vec<usize>,
}

/// What is wrong with the parameters of a scheme, if anything.
pub open spec fn parameters_error(n: int, t: int) -> Option<ThresholdError> {
    if t <= 0 || t > n {
        Some(ThresholdError::InvalidThreshold)
    } else if n >= ORDER {
        Some(ThresholdError::TooManyParties)
    } else {
        None
    }
}

/// Every member of the quorum is one of the `n` parties.
pub open spec fn indices_in_range(quorum: Seq<usize>, n: int) -> bool {
    forall|i: int| 0 <= i < quorum.len() ==> quorum[i] < n
}

/// No party occurs twice in the quorum.
pub open spec fn indices_distinct(quorum: Seq<usize>) -> bool {
    forall|i: int, j: int| 0 <= i < j < quorum.len() ==> quorum[i] != quorum[j]
}

/// What is wrong with a quorum for a registry of `n` parties, if anything.
pub open spec fn quorum_error(quorum: Seq<usize>, n: int) -> Option<ThresholdError> {
    if quorum.len() == 0 {
        Some(ThresholdError::EmptyQuorum)
    } else if !indices_in_range(quorum, n) {
        Some(ThresholdError::IndexOutOfRange)
    } else if !indices_distinct(quorum) {
        Some(ThresholdError::DuplicateIndex)
    } else {
        None
    }
}

/// The evaluation point of each member of a quorum: its index plus one, since
/// zero is the point of the secret itself.
pub open spec fn evaluation_points(quorum: Seq<usize>) -> Seq<int> {
    Seq::new(quorum.len(), |i: int| quorum[i] as int + 1)
}

/// The shares of the members of a quorum, in the quorum's order.
pub open spec fn select(shares: Seq<int>, quorum: Seq<usize>) -> Seq<int> {
    Seq::new(quorum.len(), |i: int| shares[quorum[i] as int])
}

/// The signature of each member of a quorum on a message, in the quorum's order.
pub open spec fn partial_signatures(message: Seq<u8>, secrets: Seq<int>, quorum: Seq<usize>) -> Seq<
    int,
> {
    Seq::new(quorum.len(), |i: int| signature_of(message, secrets[quorum[i] as int]))
}

/// The public keys that belong to a list of secret keys.
pub open spec fn publics_of(secrets: Seq<int>) -> Seq<int> {
    Seq::new(secrets.len(), |i: int| public_of(secrets[i]))
}

/// The evaluation points of a valid quorum are distinct elements of the field.
pub proof fn lemma_quorum_points_distinct(quorum: Seq<usize>, n: int)
    requires
        quorum_error(quorum, n) is None,
        n < ORDER,
    ensures
        points_error(evaluation_points(quorum)) is None,
{
    let xs = evaluation_points(quorum);
    assert forall|i: int, j: int| 0 <= i < xs.len() && 0 <= j < xs.len() && i != j implies reduce(
        xs[i],
    ) != reduce(xs[j]) by {
        assert(quorum[i] < n && quorum[j] < n);
        if i < j {
            assert(quorum[i] != quorum[j]);
        } else {
            assert(quorum[j] != quorum[i]);
        }
    }
}

fn pair_with_points<T: Copy>(quorum: &Vec<usize>, values: &Vec<T>) -> (samples: Vec<(usize, T)>)
    requires
        values.len() == quorum.len(),
        forall|i: int| 0 <= i < quorum.len() ==> quorum[i] < usize::MAX,
    ensures
        samples.len() == quorum.len(),
        forall|i: int|
            0 <= i < samples.len() ==> #[trigger] samples[i] == (
                (quorum[i] + 1) as usize,
                values[i],
            ),
{
    let mut samples: Vec<(usize, T)> = Vec::new();
    let mut i: usize = 0;
    while i < quorum.len()
        invariant
            i <= quorum.len(),
            values.len() == quorum.len(),
            samples.len() == i,
            forall|m: int| 0 <= m < quorum.len() ==> quorum[m] < usize::MAX,
            forall|m: int|
                0 <= m < i ==> #[trigger] samples[m] == ((quorum[m] + 1) as usize, values[m]),
        decreases quorum.len() - i,
    {
        samples.push((quorum[i] + 1, values[i]));
        i = i + 1;
    }
    samples
}

impl ThresholdKeyPairs {
    #[verifier::type_invariant]
    spec fn well_formed(self) -> bool {
        self.wf()
    }

    /// The registry holds one key pair for each party, each public key
    /// belongs to its secret key, and the parameters are in range.
    pub closed spec fn wf(self) -> bool {
        &&& self.keys.len() == self.n
        &&& parameters_error(self.n as int, self.t as int) is None
        &&& forall|i: int|
            0 <= i < self.keys.len() ==> (#[trigger] self.keys[i]).public_value() == public_of(
                self.keys[i].secret_value(),
            )
    }

    /// The number of parties.
    pub closed spec fn parties(self) -> int {
        self.n as int
    }

    /// The number of parties that a quorum needs.
    pub closed spec fn threshold(self) -> int {
        self.t as int
    }

    /// The secret share of each party.
    pub closed spec fn secret_shares(self) -> Seq<int> {
        Seq::new(self.keys@.len(), |i: int| self.keys@[i].secret_value())
    }

    /// The public share of each party.
    pub closed spec fn public_shares(self) -> Seq<int> {
        Seq::new(self.keys@.len(), |i: int| self.keys@[i].public_value())
    }

    /// The public key that a quorum reconstructs: its public shares
    /// interpolated at zero.
    pub open spec fn quorum_public_key(self, quorum: Seq<usize>) -> int {
        interpolate_at_zero(evaluation_points(quorum), select(self.public_shares(), quorum))
    }

    /// The secret that a quorum reconstructs: its secret shares interpolated at zero.
    pub open spec fn quorum_secret(self, quorum: Seq<usize>) -> int {
        interpolate_at_zero(evaluation_points(quorum), select(self.secret_shares(), quorum))
    }

    /// The signature that a quorum produces on a message: its members'
    /// signatures interpolated at zero.
    pub open spec fn quorum_signature(self, message: Seq<u8>, quorum: Seq<usize>) -> int {
        interpolate_at_zero(
            evaluation_points(quorum),
            partial_signatures(message, self.secret_shares(), quorum),
        )
    }

    /// What a well-formed registry holds.
    pub proof fn lemma_wf(self)
        requires
            self.wf(),
        ensures
            parameters_error(self.parties(), self.threshold()) is None,
            self.secret_shares().len() == self.parties(),
            self.public_shares() == publics_of(self.secret_shares()),
    {
        assert(self.public_shares() =~= publics_of(self.secret_shares()));
    }

    fn assemble(keys: Vec<KeyPairG2>, t: usize) -> (r: ThresholdKeyPairs)
        requires
            parameters_error(keys.len() as int, t as int) is None,
            forall|i: int|
                0 <= i < keys.len() ==> (#[trigger] keys[i]).public_value() == public_of(
                    keys[i].secret_value(),
                ),
        ensures
            r.wf(),
            r.parties() == keys.len(),
            r.threshold() == t,
            r.secret_shares() == Seq::new(keys.len() as nat, |i: int| keys[i].secret_value()),
    {
        let n: usize = keys.len();
        let r = ThresholdKeyPairs { keys, n, t };
        assert(r.secret_shares() =~= Seq::new(keys.len() as nat, |i: int| keys[i].secret_value()));
        r
    }

    /// A registry of `n` parties with threshold `t`, each party's key pair
    /// generated on its own by the primitive.
    ///
    /// Shares generated this way lie on no common polynomial of degree
    /// `t - 1`: different quorums reconstruct different keys. Use
    /// `from_polynomial` or `from_secrets` for a sharing of one secret.
    pub fn new(n: usize, t: usize) -> (r: Result<ThresholdKeyPairs, ThresholdError>)
        ensures
            match r {
                Ok(registry) => {
                    &&& parameters_error(n as int, t as int) is None
                    &&& registry.wf()
                    &&& registry.parties() == n
                    &&& registry.threshold() == t
                },
                Err(ThresholdError::Primitive(_)) => parameters_error(n as int, t as int) is None,
                Err(e) => parameters_error(n as int, t as int) == Some(e),
            },
    {
        if t == 0 || t > n {
            return Err(ThresholdError::InvalidThreshold);
        }
        if n as u64 >= ORDER {
            return Err(ThresholdError::TooManyParties);
        }
        let mut keys: Vec<KeyPairG2> = Vec::new();
        let mut i: usize = 0;
        while i < n
            invariant
                i <= n,
                parameters_error(n as int, t as int) is None,
                keys.len() == i,
                forall|m: int|
                    0 <= m < keys.len() ==> (#[trigger] keys[m]).public_value() == public_of(
                        keys[m].secret_value(),
                    ),
            decreases n - i,
        {
            match KeyPairG2::new() {
                Ok(key) => {
                    keys.push(key);
                },
                Err(e) => {
                    return Err(ThresholdError::Primitive(e));
                },
            }
            i = i + 1;
        }
        Ok(ThresholdKeyPairs::assemble(keys, t))
    }

    /// A registry that holds the given secret shares, one per party in
    /// order, with threshold `t`.
    pub fn from_secrets(secrets: &Vec<FE2>, t: usize) -> (r: Result<
        ThresholdKeyPairs,
        ThresholdError,
    >)
        ensures
            match r {
                Ok(registry) => {
                    &&& parameters_error(secrets.len() as int, t as int) is None
                    &&& registry.wf()
                    &&& registry.parties() == secrets.len()
                    &&& registry.threshold() == t
                    &&& registry.secret_shares() == residues(secrets@)
                },
                Err(e) => parameters_error(secrets.len() as int, t as int) == Some(e),
            },
    {
        let n: usize = secrets.len();
        if t == 0 || t > n {
            return Err(ThresholdError::InvalidThreshold);
        }
        if n as u64 >= ORDER {
            return Err(ThresholdError::TooManyParties);
        }
        let mut keys: Vec<KeyPairG2> = Vec::new();
        let mut i: usize = 0;
        while i < n
            invariant
                i <= n,
                n == secrets.len(),
                keys.len() == i,
                forall|m: int|
                    0 <= m < keys.len() ==> (#[trigger] keys[m]).public_value() == public_of(
                        keys[m].secret_value(),
                    ),
                forall|m: int| 0 <= m < keys.len() ==> (#[trigger] keys[m]).secret_value() == secrets[m]@,
            decreases n - i,
        {
            keys.push(KeyPairG2::from_secret(secrets[i]));
            i = i + 1;
        }
        let registry = ThresholdKeyPairs::assemble(keys, t);
        assert(registry.secret_shares() =~= residues(secrets@));
        Ok(registry)
    }

    /// A registry that shares the constant term of a polynomial among `n`
    /// parties: party `i` holds the polynomial's value at `i + 1`. The
    /// threshold is the number of coefficients.
    pub fn from_polynomial(coefficients: &Vec<FE2>, n: usize) -> (r: Result<
        ThresholdKeyPairs,
        ThresholdError,
    >)
        ensures
            match r {
                Ok(registry) => {
                    &&& parameters_error(n as int, coefficients.len() as int) is None
                    &&& registry.wf()
                    &&& registry.parties() == n
                    &&& registry.threshold() == coefficients.len()
                    &&& registry.shares_polynomial(residues(coefficients@))
                },
                Err(e) => parameters_error(n as int, coefficients.len() as int) == Some(e),
            },
    {
        let t: usize = coefficients.len();
        if t == 0 || t > n {
            return Err(ThresholdError::InvalidThreshold);
        }
        if n as u64 >= ORDER {
            return Err(ThresholdError::TooManyParties);
        }
        let mut keys: Vec<KeyPairG2> = Vec::new();
        let mut i: usize = 0;
        while i < n
            invariant
                i <= n,
                n < ORDER,
                keys.len() == i,
                forall|m: int|
                    0 <= m < keys.len() ==> (#[trigger] keys[m]).public_value() == public_of(
                        keys[m].secret_value(),
                    ),
                forall|m: int|
                    0 <= m < keys.len() ==> (#[trigger] keys[m]).secret_value() == reduce(
                        evaluate(residues(coefficients@), m + 1),
                    ),
            decreases n - i,
        {
            let point: FE2 = FE2::from_u64((i + 1) as u64);
            keys.push(KeyPairG2::from_secret(evaluate_at(coefficients, &point)));
            i = i + 1;
        }
        Ok(ThresholdKeyPairs::assemble(keys, t))
    }

    /// Every party's secret share is the value of the polynomial with the
    /// given coefficients at the party's evaluation point.
    pub open spec fn shares_polynomial(self, coefficients: Seq<int>) -> bool {
        &&& self.secret_shares().len() == self.parties()
        &&& forall|i: int|
            0 <= i < self.parties() ==> #[trigger] self.secret_shares()[i] == reduce(
                evaluate(coefficients, i + 1),
            )
    }

    /// The number of parties.
    pub fn n(&self) -> (n: usize)
        ensures
            n == self.parties(),
    {
        self.n
    }

    /// The number of parties that a quorum needs.
    pub fn t(&self) -> (t: usize)
        ensures
            t == self.threshold(),
    {
        self.t
    }

    /// Checks a quorum against the registry: it must have a member, name
    /// only parties that the registry holds, and name none twice.
    pub fn check_quorum(&self, quorum: &Vec<usize>) -> (r: Result<(), ThresholdError>)
        ensures
            match r {
                Ok(_) => quorum_error(quorum@, self.parties()) is None,
                Err(e) => quorum_error(quorum@, self.parties()) == Some(e),
            },
    {
        if quorum.len() == 0 {
            return Err(ThresholdError::EmptyQuorum);
        }
        let mut i: usize = 0;
        while i < quorum.len()
            invariant
                i <= quorum.len(),
                forall|m: int| 0 <= m < i ==> quorum[m] < self.n,
            decreases quorum.len() - i,
        {
            if quorum[i] >= self.n {
                return Err(ThresholdError::IndexOutOfRange);
            }
            i = i + 1;
        }
        let mut j: usize = 1;
        while j < quorum.len()
            invariant
                1 <= j <= quorum.len(),
                indices_in_range(quorum@, self.n as int),
                forall|a: int, b: int| 0 <= a < b < j ==> quorum[a] != quorum[b],
            decreases quorum.len() - j,
        {
            let mut k: usize = 0;
            while k < j
                invariant
                    k <= j < quorum.len(),
                    indices_in_range(quorum@, self.n as int),
                    forall|a: int| 0 <= a < k ==> quorum[a] != quorum[j as int],
                decreases j - k,
            {
                if quorum[k] == quorum[j] {
                    assert(!indices_distinct(quorum@)) by {
                        assert(quorum@[k as int] == quorum@[j as int]);
                    }
                    return Err(ThresholdError::DuplicateIndex);
                }
                k = k + 1;
            }
            j = j + 1;
        }
        Ok(())
    }

    /// The key pair of each member of the quorum, in the quorum's order.
    fn get_quorum_keys(&self, quorum: &Vec<usize>) -> (r: Result<Vec<KeyPairG2>, ThresholdError>)
        ensures
            match r {
                Ok(keys) => {
                    &&& indices_in_range(quorum@, self.parties())
                    &&& keys.len() == quorum.len()
                    &&& forall|i: int|
                        0 <= i < keys.len() ==> #[trigger] keys[i] == self.keys[quorum[i] as int]
                },
                Err(e) => e == ThresholdError::IndexOutOfRange && !indices_in_range(
                    quorum@,
                    self.parties(),
                ),
            },
    {
        proof {
            use_type_invariant(self);
        }
        let mut keys: Vec<KeyPairG2> = Vec::new();
        let mut i: usize = 0;
        while i < quorum.len()
            invariant
                i <= quorum.len(),
                self.keys.len() == self.n,
                keys.len() == i,
                forall|m: int| 0 <= m < i ==> quorum[m] < self.n,
                forall|m: int| 0 <= m < i ==> #[trigger] keys[m] == self.keys[quorum[m] as int],
            decreases quorum.len() - i,
        {
            let index: usize = quorum[i];
            if index >= self.keys.len() {
                return Err(ThresholdError::IndexOutOfRange);
            }
            keys.push(self.keys[index]);
            i = i + 1;
        }
        Ok(keys)
    }

    /// The public share of each member of the quorum, in the quorum's order.
    ///
    /// Fails where the quorum names a party that the registry does not hold.
    #[allow(non_snake_case)]
    pub fn get_X(&self, quorum: &Vec<usize>) -> (r: Result<Vec<GE2>, ThresholdError>)
        ensures
            match r {
                Ok(shares) => {
                    &&& indices_in_range(quorum@, self.parties())
                    &&& shares.len() == quorum.len()
                    &&& forall|i: int|
                        0 <= i < shares.len() ==> (#[trigger] shares[i])@
                            == self.public_shares()[quorum[i] as int]
                },
                Err(e) => e == ThresholdError::IndexOutOfRange && !indices_in_range(
                    quorum@,
                    self.parties(),
                ),
            },
    {
        proof {
            use_type_invariant(self);
        }
        let keys: Vec<KeyPairG2> = match self.get_quorum_keys(quorum) {
            Ok(keys) => keys,
            Err(e) => {
                return Err(e);
            },
        };
        let mut shares: Vec<GE2> = Vec::new();
        let mut i: usize = 0;
        while i < keys.len()
            invariant
                i <= keys.len(),
                keys.len() == quorum.len(),
                shares.len() == i,
                self.keys.len() == self.n,
                indices_in_range(quorum@, self.n as int),
                forall|m: int|
                    0 <= m < keys.len() ==> #[trigger] keys[m] == self.keys[quorum[m] as int],
                forall|m: int|
                    0 <= m < i ==> (#[trigger] shares[m])@ == self.public_shares()[quorum[m] as int],
            decreases keys.len() - i,
        {
            shares.push(keys[i].public_key());
            i = i + 1;
        }
        Ok(shares)
    }

    /// The secret share of each member of the quorum, in the quorum's order.
    ///
    /// Fails where the quorum names a party that the registry does not hold.
    pub fn get_x(&self, quorum: &Vec<usize>) -> (r: Result<Vec<FE2>, ThresholdError>)
        ensures
            match r {
                Ok(shares) => {
                    &&& indices_in_range(quorum@, self.parties())
                    &&& shares.len() == quorum.len()
                    &&& forall|i: int|
                        0 <= i < shares.len() ==> (#[trigger] shares[i])@
                            == self.secret_shares()[quorum[i] as int]
                },
                Err(e) => e == ThresholdError::IndexOutOfRange && !indices_in_range(
                    quorum@,
                    self.parties(),
                ),
            },
    {
        proof {
            use_type_invariant(self);
        }
        let keys: Vec<KeyPairG2> = match self.get_quorum_keys(quorum) {
            Ok(keys) => keys,
            Err(e) => {
                return Err(e);
            },
        };
        let mut shares: Vec<FE2> = Vec::new();
        let mut i: usize = 0;
        while i < keys.len()
            invariant
                i <= keys.len(),
                keys.len() == quorum.len(),
                shares.len() == i,
                self.keys.len() == self.n,
                indices_in_range(quorum@, self.n as int),
                forall|m: int|
                    0 <= m < keys.len() ==> #[trigger] keys[m] == self.keys[quorum[m] as int],
                forall|m: int|
                    0 <= m < i ==> (#[trigger] shares[m])@ == self.secret_shares()[quorum[m] as int],
            decreases keys.len() - i,
        {
            shares.push(keys[i].private_key());
            i = i + 1;
        }
        Ok(shares)
    }

    /// The public key that the quorum reconstructs: the interpolation at zero,
    /// in the group of public keys, of each member's public share at the
    /// member's evaluation point.
    ///
    /// A quorum that is empty, names a party that the registry does not
    /// hold, or names a party twice is refused before any arithmetic.
    #[allow(non_snake_case)]
    pub fn quorum_X(&self, quorum: &Vec<usize>) -> (r: Result<GE2, ThresholdError>)
        ensures
            match r {
                Ok(key) => quorum_error(quorum@, self.parties()) is None && key@
                    == self.quorum_public_key(quorum@),
                Err(e) => quorum_error(quorum@, self.parties()) == Some(e),
            },
            self.wf(),
            !indices_in_range(quorum@, self.parties()) ==> r is Err,
            !indices_distinct(quorum@) ==> r is Err,
    {
        proof {
            use_type_invariant(self);
        }
        match self.check_quorum(quorum) {
            Ok(_) => {},
            Err(e) => {
                return Err(e);
            },
        }
        let shares: Vec<GE2> = match self.get_X(quorum) {
            Ok(shares) => shares,
            Err(e) => {
                return Err(e);
            },
        };
        let samples: Vec<(usize, GE2)> = pair_with_points(quorum, &shares);
        proof {
            lemma_quorum_points_distinct(quorum@, self.n as int);
            assert(sample_points(samples@) =~= evaluation_points(quorum@));
            assert(public_values(samples@) =~= select(self.public_shares(), quorum@));
        }
        match lagrange_interpolate_f0_X(&samples) {
            Ok(key) => Ok(key),
            Err(_) => Err(ThresholdError::DuplicateIndex),
        }
    }

    /// The secret that the quorum reconstructs: the interpolation at zero, in
    /// the scalar field, of each member's secret share at the member's
    /// evaluation point.
    ///
    /// A quorum that is empty, names a party that the registry does not
    /// hold, or names a party twice is refused before any arithmetic.
    pub fn quorum_x(&self, quorum: &Vec<usize>) -> (r: Result<FE2, ThresholdError>)
        ensures
            match r {
                Ok(secret) => quorum_error(quorum@, self.parties()) is None && secret@
                    == self.quorum_secret(quorum@),
                Err(e) => quorum_error(quorum@, self.parties()) == Some(e),
            },
            !indices_in_range(quorum@, self.parties()) ==> r is Err,
            !indices_distinct(quorum@) ==> r is Err,
    {
        proof {
            use_type_invariant(self);
        }
        match self.check_quorum(quorum) {
            Ok(_) => {},
            Err(e) => {
                return Err(e);
            },
        }
        let shares: Vec<FE2> = match self.get_x(quorum) {
            Ok(shares) => shares,
            Err(e) => {
                return Err(e);
            },
        };
        let samples: Vec<(usize, FE2)> = pair_with_points(quorum, &shares);
        proof {
            lemma_quorum_points_distinct(quorum@, self.n as int);
            assert(sample_points(samples@) =~= evaluation_points(quorum@));
            assert(scalar_values(samples@) =~= select(self.secret_shares(), quorum@));
        }
        match lagrange_interpolate_f0_x(&samples) {
            Ok(secret) => Ok(secret),
            Err(_) => Err(ThresholdError::DuplicateIndex),
        }
    }
}

impl ThresholdSignature {
    /// The combined signature as a logarithm in the signature group.
    pub open spec fn value(self) -> int {
        self.sig.sigma@
    }

    /// The signature is what a quorum produces on the message: the quorum is
    /// well formed for the registry, and the value is the interpolation of
    /// its members' signatures.
    pub open spec fn signed_by(self, message: Seq<u8>, tkps: ThresholdKeyPairs) -> bool {
        &&& quorum_error(self.quorum@, tkps.parties()) is None
        &&& self.value() == tkps.quorum_signature(message, self.quorum@)
    }

    /// What verification of this signature on a message returns: failure for
    /// a quorum below the threshold, an error for a quorum that is malformed
    /// otherwise, else whether the pairing equation holds against the public
    /// key that the quorum reconstructs.
    pub open spec fn verification(self, message: Seq<u8>, tkps: ThresholdKeyPairs) -> Result<
        bool,
        ThresholdError,
    > {
        if self.quorum@.len() < tkps.threshold() {
            Ok(false)
        } else {
            match quorum_error(self.quorum@, tkps.parties()) {
                Some(e) => Err(e),
                None => Ok(
                    signature_valid(self.value(), message, tkps.quorum_public_key(self.quorum@)),
                ),
            }
        }
    }

    /// Signs a message with the secret shares of a quorum: each member signs
    /// on its own, and the partial signatures are interpolated at zero at the
    /// members' evaluation points.
    ///
    /// The size of the quorum is not held against the threshold here: a
    /// quorum below it still yields a signature, which `verify` rejects. Use
    /// `sign_strict` to refuse such a quorum at once. A quorum that is empty,
    /// names a party that the registry does not hold, or names a party twice
    /// is refused before any arithmetic.
    pub fn sign(message: &[u8], tkps: &ThresholdKeyPairs, quorum: &Vec<usize>) -> (r: Result<
        ThresholdSignature,
        ThresholdError,
    >)
        ensures
            match r {
                Ok(signature) => signature.quorum@ == quorum@ && signature.signed_by(
                    message@,
                    *tkps,
                ),
                Err(e) => quorum_error(quorum@, tkps.parties()) == Some(e),
            },
            tkps.wf(),
            !indices_in_range(quorum@, tkps.parties()) ==> r is Err,
            !indices_distinct(quorum@) ==> r is Err,
    {
        proof {
            use_type_invariant(tkps);
        }
        match tkps.check_quorum(quorum) {
            Ok(_) => {},
            Err(e) => {
                return Err(e);
            },
        }
        let secrets: Vec<FE2> = match tkps.get_x(quorum) {
            Ok(secrets) => secrets,
            Err(e) => {
                return Err(e);
            },
        };
        let mut sigmas: Vec<GE1> = Vec::new();
        let mut i: usize = 0;
        while i < secrets.len()
            invariant
                i <= secrets.len(),
                secrets.len() == quorum.len(),
                sigmas.len() == i,
                forall|m: int|
                    0 <= m < secrets.len() ==> (#[trigger] secrets[m])@
                        == tkps.secret_shares()[quorum[m] as int],
                forall|m: int|
                    0 <= m < i ==> (#[trigger] sigmas[m])@ == signature_of(
                        message@,
                        tkps.secret_shares()[quorum[m] as int],
                    ),
            decreases secrets.len() - i,
        {
            sigmas.push(BLSSignature::sign(message, &secrets[i]).sigma);
            i = i + 1;
        }
        let samples: Vec<(usize, GE1)> = pair_with_points(quorum, &sigmas);
        proof {
            lemma_quorum_points_distinct(quorum@, tkps.n as int);
            assert(sample_points(samples@) =~= evaluation_points(quorum@));
            assert(signature_values(samples@) =~= partial_signatures(
                message@,
                tkps.secret_shares(),
                quorum@,
            ));
        }
        match lagrange_interpolate_f0_sig(&samples) {
            Ok(sigma) => {
                let members: Vec<usize> = quorum.clone();
                assert(members@ =~= quorum@);
                Ok(ThresholdSignature { sig: BLSSignature { sigma }, quorum: members })
            },
            Err(_) => Err(ThresholdError::DuplicateIndex),
        }
    }

    /// Signs as `sign` does, but refuses a quorum with fewer members than the
    /// threshold.
    pub fn sign_strict(message: &[u8], tkps: &ThresholdKeyPairs, quorum: &Vec<usize>) -> (r: Result<
        ThresholdSignature,
        ThresholdError,
    >)
        ensures
            match r {
                Ok(signature) => {
                    &&& quorum.len() >= tkps.threshold()
                    &&& signature.quorum@ == quorum@
                    &&& signature.signed_by(message@, *tkps)
                },
                Err(e) => match quorum_error(quorum@, tkps.parties()) {
                    Some(reason) => e == reason,
                    None => e == ThresholdError::QuorumTooSmall && quorum.len() < tkps.threshold(),
                },
            },
    {
        match tkps.check_quorum(quorum) {
            Ok(_) => {},
            Err(e) => {
                return Err(e);
            },
        }
        if quorum.len() < tkps.t() {
            return Err(ThresholdError::QuorumTooSmall);
        }
        ThresholdSignature::sign(message, tkps, quorum)
    }

    /// Verifies the signature on a message against the public key that its
    /// quorum reconstructs.
    ///
    /// A quorum below the threshold fails verification, whatever the
    /// signature is. A quorum that reaches the threshold but names a party
    /// that the registry does not hold, or names a party twice, is an error.
    pub fn verify(&self, message: &[u8], tkps: &ThresholdKeyPairs) -> (r: Result<
        bool,
        ThresholdError,
    >)
        ensures
            r == self.verification(message@, *tkps),
            self.quorum@.len() < tkps.threshold() ==> r == Ok::<bool, ThresholdError>(false),
            tkps.wf(),
    {
        proof {
            use_type_invariant(tkps);
        }
        if self.quorum.len() < tkps.t() {
            return Ok(false);
        }
        match tkps.quorum_X(&self.quorum) {
            Ok(key) => Ok(self.sig.verify(message, &key)),
            Err(e) => Err(e),
        }
    }
}

} // verus!
