//! The verified core of a small stochastic ray tracer for scenes of spheres.
//!
//! The library holds every number by its bit pattern and never does
//! arithmetic on one. What it does, and what is proved of it, is the rest of
//! the renderer:
//!
//! - the order of numbers, sign tests and the choice between candidates
//!   ([`scalar`], [`utils`], [`vec3`]);
//! - the intersection test of a sphere, once its quadratic is solved, and the
//!   record of a hit ([`sphere`], [`ray`]);
//! - the decisions of the three scattering laws ([`material`]);
//! - the search for the closest intersection and the recursion of the path
//!   estimator ([`integrator`]);
//! - the exposure of a pixel and the scaling of a colour to 8-bit channels
//!   ([`color`]);
//! - the order of the pixels of an image, rendered in one sweep or in bands
//!   that are collected in any order ([`render`]).
//!
//! Sums, products, roots and trigonometry, random sampling, threads and
//! output belong to the program that uses the library. Where an algorithm of
//! the library needs such arithmetic, it takes it as functions, and states
//! its result in terms of what those functions return.
pub mod color;
pub mod integrator;
pub mod material;
pub mod ray;
pub mod render;
pub mod scalar;
pub mod sphere;
pub mod utils;
pub mod vec3;
