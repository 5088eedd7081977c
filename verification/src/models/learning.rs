//! What the models take from the data before they are initialised.

use crate::engine::emission::EmissionModel;
use crate::linalg::Dense;
use crate::matrix::Matrix;
use crate::models::categorical::{symbol_of, CategoricalEm};
use crate::models::multinomial::{trials_of, MultinomialEm};
use crate::models::variational::categorical::VariationalCategoricalEm;
use vstd::prelude::*;

verus! {

/// Without a number of symbols, the categorical model takes the smallest number, but at
/// least one, that leaves room for every symbol of the data.
pub proof fn categorical_makes_room_for_every_symbol<T: Dense>(
    e: &CategoricalEm<T>,
    x: &Matrix<T>,
    after: &CategoricalEm<T>,
)
    requires
        e.n_features is None,
        e.set_rel(x, after),
    ensures
        after.n_features is Some,
        after.n_features->0 >= 1,
        forall|t: int, j: int|
            0 <= t < x.rows.len() && 0 <= j < x.ncols ==> symbol_of(#[trigger] x.at(t, j))
                < after.n_features->0,
        after.n_features->0 > 1 ==> exists|t: int, j: int|
            0 <= t < x.rows.len() && 0 <= j < x.ncols && symbol_of(#[trigger] x.at(t, j)) + 1
                == after.n_features->0,
{
}

/// Without a number of symbols, the variational categorical model takes the smallest
/// number, but at least one, that leaves room for every symbol of the data.
pub proof fn variational_makes_room_for_every_symbol<T: Dense>(
    e: &VariationalCategoricalEm<T>,
    x: &Matrix<T>,
    after: &VariationalCategoricalEm<T>,
)
    requires
        e.n_features is None,
        e.set_rel(x, after),
    ensures
        after.n_features is Some,
        after.n_features->0 >= 1,
        forall|t: int, j: int|
            0 <= t < x.rows.len() && 0 <= j < x.ncols ==> symbol_of(#[trigger] x.at(t, j))
                < after.n_features->0,
        after.n_features->0 > 1 ==> exists|t: int, j: int|
            0 <= t < x.rows.len() && 0 <= j < x.ncols && symbol_of(#[trigger] x.at(t, j)) + 1
                == after.n_features->0,
{
}

/// A number of symbols that was given stays, and data with other symbols is not accepted.
pub proof fn given_symbols_bind<T: Dense>(e: &CategoricalEm<T>, x: &Matrix<T>, nf: usize)
    requires
        e.n_features == Some(nf),
        e.accepts(x),
    ensures
        forall|t: int, j: int|
            0 <= t < x.rows.len() && 0 <= j < x.ncols ==> symbol_of(#[trigger] x.at(t, j)) < nf,
        forall|after: CategoricalEm<T>| #[trigger]
            e.set_rel(x, &after) ==> after.n_features == Some(nf),
{
}

/// Without a given number of trials, the multinomial model takes the one that every row
/// adds up to, none where the rows differ; a given one stays, and rows that add up to
/// another are not accepted.
pub proof fn multinomial_learns_trials<T: Dense>(
    e: &MultinomialEm<T>,
    x: &Matrix<T>,
    after: &MultinomialEm<T>,
)
    requires
        e.accepts(x),
        e.set_rel(x, after),
    ensures
        after.n_features == Some(x.ncols),
        (e.n_trials is None || e.n_trials_inferred) ==> match after.n_trials {
            Some(n) => x.rows.len() >= 1 && forall|t: int|
                0 <= t < x.rows.len() ==> (#[trigger] trials_of(x, t)).s_to_int() == n,
            None => x.rows.len() == 0 || exists|t: int|
                0 <= t < x.rows.len() && (#[trigger] trials_of(x, t)).s_to_int() != trials_of(
                    x,
                    0,
                ).s_to_int(),
        },
        (e.n_trials is Some && !e.n_trials_inferred) ==> after.n_trials == e.n_trials && forall|
            t: int,
        |
            0 <= t < x.rows.len() ==> (#[trigger] trials_of(x, t)).s_to_int() == e.n_trials->0,
{
}

} // verus!
