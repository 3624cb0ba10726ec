//! A buffer of values over the sphere's surface: `res * res` cells on each of two
//! faces.
use vstd::prelude::*;

verus! {

/// The number of cells of a surface of resolution `res`.
pub open spec fn surface_len(res: nat) -> nat {
    res * res * 2
}

/// Values over the sphere's surface at a given resolution.
pub struct SphereSurface<T> {
    res: usize,
    data: Vec<T>,
}

impl<T> SphereSurface<T> {
    /// The resolution of the surface.
    pub closed spec fn spec_resolution(&self) -> nat {
        self.res as nat
    }

    /// The values of the surface, cell by cell.
    pub closed spec fn spec_data(&self) -> Seq<T> {
        self.data@
    }

    /// The resolution is nonzero and the data holds one value per cell.
    pub closed spec fn wf(&self) -> bool {
        self.res > 0 && self.data@.len() == surface_len(self.res as nat)
    }

    /// Create a surface from a resolution and the data, which must hold
    /// `res * res * 2` values; otherwise the data is handed back as an `Err`.
    pub fn from_data(res: usize, data: Vec<T>) -> (r: Result<Self, Vec<T>>)
        ensures
            r is Ok <==> res > 0 && data@.len() == surface_len(res as nat),
            r matches Ok(s) ==> s.wf() && s.spec_resolution() == res && s.spec_data() == data@,
            r matches Err(d) ==> d@ == data@,
    {
        let len = data.len();
        let mut fits = false;
        let square = res.checked_mul(res);
        if square.is_none() {
            assert(surface_len(res as nat) > usize::MAX) by (nonlinear_arith)
                requires
                    res * res > usize::MAX,
            ;
        } else {
            let sq = square.unwrap();
            let cells = sq.checked_mul(2);
            if cells.is_none() {
                assert(surface_len(res as nat) > usize::MAX) by (nonlinear_arith)
                    requires
                        sq * 2 > usize::MAX,
                        sq == res * res,
                ;
            } else {
                let n = cells.unwrap();
                assert(n == surface_len(res as nat)) by (nonlinear_arith)
                    requires
                        n == sq * 2,
                        sq == res * res,
                ;
                fits = n == len;
            }
        }
        if res != 0 && fits {
            Ok(Self { res, data })
        } else {
            Err(data)
        }
    }

    /// The number of cells, `res * res * 2`.
    pub fn len(&self) -> (r: usize)
        requires
            self.wf(),
        ensures
            r == surface_len(self.spec_resolution()),
    {
        self.data.len()
    }

    /// The resolution of the surface.
    pub fn resolution(&self) -> (r: usize)
        ensures
            r == self.spec_resolution(),
    {
        self.res
    }

    /// The values of the surface.
    pub fn as_slice(&self) -> (r: &[T])
        ensures
            r@ == self.spec_data(),
    {
        self.data.as_slice()
    }
}

} // verus!
