//! The model: a sample and the one weight table last built from it.
use vstd::prelude::*;
use crate::pattern::two_pow;
use crate::weights::{is_table_of, process_weights};

verus! {

/// A built weight table and the pattern size it was built for.
pub struct WeightsCache {
    pub n: u8,
    pub weights: Vec<u32>,
}

/// Why a sample was refused.
#[derive(Debug, PartialEq, Eq, Structural)]
pub enum SampleError {
    /// The cells do not number `width * height`.
    LengthMismatch { expected: usize, actual: usize },
}

/// A sample bitmap and a single-slot cache of its weight table.
pub struct ConvChain {
    pub sample_width: u8,
    pub sample_height: u8,
    pub sample: Vec<bool>,
    pub cache: Option<WeightsCache>,
}

/// Whether `c` holds the weight table of `sample` for its own pattern size.
pub open spec fn cache_fits(c: WeightsCache, sample: Seq<bool>, w: int, h: int) -> bool {
    &&& 1 <= c.n <= 5
    &&& is_table_of(c.weights@, sample, w, h, c.n as int)
}

/// What `get_weights(n)` does to a model that was `before` and is `after`,
/// handing back the table `r`.
pub open spec fn get_weights_step(before: ConvChain, after: ConvChain, n: u8, r: Seq<u32>) -> bool {
    &&& after.wf()
    &&& after.sample_width == before.sample_width
    &&& after.sample_height == before.sample_height
    &&& after.sample@ == before.sample@
    &&& is_table_of(r, after.sample@, after.sample_width as int, after.sample_height as int, n as int)
    &&& after.cache is Some
    &&& after.cache->0.n == n
    &&& after.cache->0.weights@ == r
    &&& (before.cached_size() == Some(n) ==> after.cache->0.weights@ == before.cache->0.weights@)
}

/// What `set_sample` does to a model when it accepts the sample.
pub open spec fn set_sample_step(before: ConvChain, after: ConvChain, w: u8, h: u8, s: Seq<bool>) -> bool {
    &&& after.wf()
    &&& after.sample_width == w
    &&& after.sample_height == h
    &&& after.sample@ == s
    &&& after.cache is None
}

/// Asking twice in a row for the same pattern size, with the sample left
/// alone, hands back the same table, and the second call keeps the table that
/// the first one left in the slot instead of building another.
pub proof fn lemma_cache_reuse(c0: ConvChain, c1: ConvChain, c2: ConvChain, n: u8, r1: Seq<u32>, r2: Seq<u32>)
    requires
        c0.wf(),
        get_weights_step(c0, c1, n, r1),
        get_weights_step(c1, c2, n, r2),
    ensures
        c1.cached_size() == Some(n),
        c2.cache->0.weights@ == c1.cache->0.weights@,
        r2 == r1,
{
}

/// After the sample is replaced nothing is cached, so the next table, for any
/// pattern size, is built from the new sample.
pub proof fn lemma_replaced_sample_rebuilds(
    c0: ConvChain,
    c1: ConvChain,
    c2: ConvChain,
    w: u8,
    h: u8,
    s: Seq<bool>,
    n: u8,
    r: Seq<u32>,
)
    requires
        c0.wf(),
        set_sample_step(c0, c1, w, h, s),
        get_weights_step(c1, c2, n, r),
    ensures
        c1.cached_size() is None,
        is_table_of(r, s, w as int, h as int, n as int),
        c2.cached_size() == Some(n),
{
}

impl ConvChain {
    /// The sample holds `width * height` cells and a cached table, if any,
    /// is the table of that sample.
    pub open spec fn wf(&self) -> bool {
        &&& self.sample@.len() == self.sample_width * self.sample_height
        &&& (self.cache matches Some(c) ==> cache_fits(
            c,
            self.sample@,
            self.sample_width as int,
            self.sample_height as int,
        ))
    }

    /// The pattern size of the cached table, if one is held.
    pub open spec fn cached_size(&self) -> Option<u8> {
        match self.cache {
            Some(c) => Some(c.n),
            None => None,
        }
    }

    /// A model of the sample, or an error where the cells do not number
    /// `sample_width * sample_height`.
    pub fn new(sample_width: u8, sample_height: u8, sample: Vec<bool>) -> (r: Result<
        ConvChain,
        SampleError,
    >)
        ensures
            sample@.len() == sample_width * sample_height <==> r is Ok,
            r matches Ok(c) ==> c.wf() && c.sample_width == sample_width && c.sample_height
                == sample_height && c.sample@ == sample@ && c.cache is None,
            r matches Err(e) ==> e == (SampleError::LengthMismatch {
                expected: (sample_width * sample_height) as usize,
                actual: sample@.len() as usize,
            }),
    {
        let mut cc = ConvChain {
            sample_width: 0,
            sample_height: 0,
            sample: Vec::new(),
            cache: None,
        };
        match cc.set_sample(sample_width, sample_height, sample) {
            Ok(()) => Ok(cc),
            Err(e) => Err(e),
        }
    }

    /// Replaces the sample and drops the cached table. A sample whose cells
    /// do not number `sample_width * sample_height` is refused and the model
    /// is left as it was.
    pub fn set_sample(&mut self, sample_width: u8, sample_height: u8, sample: Vec<bool>) -> (r:
        Result<(), SampleError>)
        requires
            old(self).wf(),
        ensures
            sample@.len() == sample_width * sample_height <==> r is Ok,
            r is Ok ==> set_sample_step(*old(self), *final(self), sample_width, sample_height, sample@),
            r matches Err(e) ==> *final(self) == *old(self) && e == (SampleError::LengthMismatch {
                expected: (sample_width * sample_height) as usize,
                actual: sample@.len() as usize,
            }),
    {
        assert((sample_width as int) * (sample_height as int) <= 255 * 255) by (nonlinear_arith)
            requires
                sample_width <= 255,
                sample_height <= 255,
        ;
        let expected: usize = (sample_width as usize) * (sample_height as usize);
        if sample.len() != expected {
            return Err(SampleError::LengthMismatch { expected, actual: sample.len() });
        }
        self.sample_width = sample_width;
        self.sample_height = sample_height;
        self.sample = sample;
        self.cache = None;
        Ok(())
    }

    /// The weight table for `n` by `n` patterns: the cached one where it was
    /// built for `n`, else a new one, which then takes the single slot.
    pub fn get_weights(&mut self, n: u8) -> (r: &Vec<u32>)
        requires
            old(self).wf(),
            1 <= n <= 5,
        ensures
            get_weights_step(*old(self), *final(self), n, r@),
    {
        let hit = match &self.cache {
            Some(c) => c.n == n,
            None => false,
        };
        if !hit {
            let weights = process_weights(&self.sample, self.sample_width, self.sample_height, n);
            self.cache = Some(WeightsCache { n, weights });
        }
        &self.cache.as_ref().unwrap().weights
    }

    /// Whether a table for `n` by `n` patterns is held.
    pub fn is_cached(&self, n: u8) -> (r: bool)
        ensures
            r == (self.cached_size() == Some(n)),
    {
        match &self.cache {
            Some(c) => c.n == n,
            None => false,
        }
    }
}

} // verus!
