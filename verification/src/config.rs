//! The configuration of a proof system: the roles that one instance binds
//! together, and the two objects that it holds.

use std::marker::PhantomData;
use vstd::prelude::*;

verus! {

/// What a proof system is made of. The three fields and the challenger are
/// types alone; the commitment scheme and the transform engine are also held
/// as objects, and lent out for as long as the configuration lives.
pub trait StarkConfig {
    /// The field over which trace data is encoded.
    type Val;

    /// The field over which trace polynomials are defined.
    type Domain;

    /// The field from which most random challenges are drawn.
    type Challenge;

    /// The scheme that commits to trace polynomials.
    type Pcs;

    /// The transform engine.
    type Dft;

    /// The challenger that drives the protocol.
    type Challenger;

    /// The commitment scheme that this configuration holds.
    spec fn held_pcs(&self) -> Self::Pcs;

    /// The transform engine that this configuration holds.
    spec fn held_dft(&self) -> Self::Dft;

    /// Lends the commitment scheme.
    fn pcs(&self) -> (pcs: &Self::Pcs)
        ensures
            *pcs == self.held_pcs(),
    ;

    /// Lends the transform engine.
    fn dft(&self) -> (dft: &Self::Dft)
        ensures
            *dft == self.held_dft(),
    ;
}

/// A configuration that is given its commitment scheme and its transform
/// engine and keeps nothing else: the fields and the challenger are types
/// without a value.
pub struct StarkConfigImpl<Val, Domain, Challenge, Pcs, Dft, Challenger> {
    pcs: Pcs,
    dft: Dft,
    _phantom_val: PhantomData<Val>,
    _phantom_domain: PhantomData<Domain>,
    _phantom_challenge: PhantomData<Challenge>,
    _phantom_chal: PhantomData<Challenger>,
}

impl<Val, Domain, Challenge, Pcs, Dft, Challenger> StarkConfigImpl<
    Val,
    Domain,
    Challenge,
    Pcs,
    Dft,
    Challenger,
> {
    /// Takes the two objects over; they are what the configuration holds from then on.
    pub fn new(pcs: Pcs, dft: Dft) -> (config: Self)
        ensures
            config.held_pcs() == pcs,
            config.held_dft() == dft,
    {
        StarkConfigImpl {
            pcs,
            dft,
            _phantom_val: PhantomData,
            _phantom_domain: PhantomData,
            _phantom_challenge: PhantomData,
            _phantom_chal: PhantomData,
        }
    }
}

impl<Val, Domain, Challenge, Pcs, Dft, Challenger> StarkConfig for StarkConfigImpl<
    Val,
    Domain,
    Challenge,
    Pcs,
    Dft,
    Challenger,
> {
    type Val = Val;

    type Domain = Domain;

    type Challenge = Challenge;

    type Pcs = Pcs;

    type Dft = Dft;

    type Challenger = Challenger;

    closed spec fn held_pcs(&self) -> Pcs {
        self.pcs
    }

    closed spec fn held_dft(&self) -> Dft {
        self.dft
    }

    fn pcs(&self) -> (pcs: &Pcs) {
        &self.pcs
    }

    fn dft(&self) -> (dft: &Dft) {
        &self.dft
    }
}

} // verus!
