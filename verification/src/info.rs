use vstd::prelude::*;

verus! {

/// What the catalog records of one family: whether it is discrete, which
/// decides the wording of its point lines.
pub struct OneDist {
    pub discrete: bool,
}

/// The catalog of families, each with its discreteness.
pub struct Info {
    pub binomial: OneDist,
    pub chi_squared: OneDist,
    pub exponential: OneDist,
    pub geometric: OneDist,
    pub negative_binomial: OneDist,
    pub normal: OneDist,
    pub poisson: OneDist,
    pub uniform: OneDist,
    pub fisher_snedecor: OneDist,
    pub students_t: OneDist,
}

/// The catalog: the four counting families are discrete, the six real
/// valued ones are continuous.
pub fn info() -> (r: Info)
    ensures
        r.binomial.discrete,
        r.negative_binomial.discrete,
        r.poisson.discrete,
        r.geometric.discrete,
        !r.chi_squared.discrete,
        !r.exponential.discrete,
        !r.normal.discrete,
        !r.uniform.discrete,
        !r.fisher_snedecor.discrete,
        !r.students_t.discrete,
{
    Info {
        binomial: OneDist { discrete: true },
        negative_binomial: OneDist { discrete: true },
        poisson: OneDist { discrete: true },
        geometric: OneDist { discrete: true },
        chi_squared: OneDist { discrete: false },
        exponential: OneDist { discrete: false },
        normal: OneDist { discrete: false },
        uniform: OneDist { discrete: false },
        fisher_snedecor: OneDist { discrete: false },
        students_t: OneDist { discrete: false },
    }
}

} // verus!
