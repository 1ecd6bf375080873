use vstd::prelude::*;
use crate::bezier::{gen_cubic_bezier_tuples_from_points, quads_of};
use crate::context::{PathCmd, PathContext};
use crate::errors::EmitError;
use crate::oracle::ToleranceOracle;
use crate::point::Point;
use crate::subpaths::{gen_subpaths_from_points_2d, subpaths_of};

verus! {

/// The curve commands of one subpath: one `CurveTo` per cubic segment, in
/// order, carrying the two control points and the end anchor. The segment's
/// start anchor is never re-emitted; the context's current point supplies it.
pub open spec fn curve_cmds(sp: Seq<Point>) -> Seq<PathCmd> {
    Seq::new((sp.len() / 4) as nat, |k: int| PathCmd::CurveTo {
        x1: sp[4 * k + 1].x,
        y1: sp[4 * k + 1].y,
        x2: sp[4 * k + 2].x,
        y2: sp[4 * k + 2].y,
        x3: sp[4 * k + 3].x,
        y3: sp[4 * k + 3].y,
    })
}

/// All commands one subpath contributes: announce it, move to its first
/// point, draw its cubic segments, and close it exactly when its first and
/// last points are tolerance-equal.
pub open spec fn subpath_cmds<O: ToleranceOracle>(sp: Seq<Point>) -> Seq<PathCmd> {
    seq![PathCmd::NewSubPath, PathCmd::MoveTo { x: sp[0].x, y: sp[0].y }] + curve_cmds(sp) + (
    if O::close_spec(sp[0], sp[sp.len() - 1]) {
        seq![PathCmd::ClosePath]
    } else {
        Seq::<PathCmd>::empty()
    })
}

/// The commands contributed by the first `i` subpaths, in order.
pub open spec fn cmds_upto<O: ToleranceOracle>(sps: Seq<Seq<Point>>, i: int) -> Seq<PathCmd>
    decreases i,
{
    if i <= 0 {
        Seq::empty()
    } else {
        cmds_upto::<O>(sps, i - 1) + subpath_cmds::<O>(sps[i - 1])
    }
}

/// The full command sequence that emitting a point sequence issues: one
/// unconditional `NewPath`, then each subpath's commands in order.
pub open spec fn emit_cmds<O: ToleranceOracle>(ps: Seq<Point>) -> Seq<PathCmd> {
    seq![PathCmd::NewPath] + cmds_upto::<O>(subpaths_of::<O>(ps), subpaths_of::<O>(ps).len() as int)
}

proof fn lemma_self_prefix<T>(a: Seq<T>)
    ensures
        a.is_prefix_of(a),
{
    assert(a =~= a.subrange(0, a.len() as int));
}

proof fn lemma_concat_prefix<T>(a: Seq<T>, b: Seq<T>)
    ensures
        a.is_prefix_of(a + b),
{
    assert(a =~= (a + b).subrange(0, a.len() as int));
}

proof fn lemma_prefix_trans<T>(a: Seq<T>, b: Seq<T>, c: Seq<T>)
    requires
        a.is_prefix_of(b),
        b.is_prefix_of(c),
    ensures
        a.is_prefix_of(c),
{
    assert forall|i: int| 0 <= i < a.len() implies a[i] == c[i] by {
        assert(a[i] == b.subrange(0, a.len() as int)[i]);
        assert(b[i] == c.subrange(0, b.len() as int)[i]);
    }
    assert(a =~= c.subrange(0, a.len() as int));
}

proof fn lemma_prefix_concat_left<T>(c: Seq<T>, a: Seq<T>, b: Seq<T>)
    requires
        a.is_prefix_of(b),
    ensures
        (c + a).is_prefix_of(c + b),
{
    assert forall|i: int| 0 <= i < c.len() + a.len() implies (c + a)[i] == (c + b)[i] by {
        if i >= c.len() {
            assert(a[i - c.len()] == b.subrange(0, a.len() as int)[i - c.len()]);
        }
    }
    assert((c + a) =~= (c + b).subrange(0, (c + a).len() as int));
}

proof fn lemma_upto_prefix<O: ToleranceOracle>(sps: Seq<Seq<Point>>, i: int, j: int)
    requires
        0 <= i <= j,
    ensures
        cmds_upto::<O>(sps, i).is_prefix_of(cmds_upto::<O>(sps, j)),
    decreases j - i,
{
    if i == j {
        lemma_self_prefix(cmds_upto::<O>(sps, i));
    } else {
        lemma_upto_prefix::<O>(sps, i, j - 1);
        lemma_concat_prefix(cmds_upto::<O>(sps, j - 1), subpath_cmds::<O>(sps[j - 1]));
        lemma_prefix_trans(
            cmds_upto::<O>(sps, i),
            cmds_upto::<O>(sps, j - 1),
            cmds_upto::<O>(sps, j),
        );
    }
}

/// Commands already issued while working on subpath `i` form a prefix of the
/// whole protocol's command sequence.
proof fn lemma_issued_prefix<O: ToleranceOracle>(sps: Seq<Seq<Point>>, i: int, partial: Seq<
    PathCmd,
>)
    requires
        0 <= i < sps.len(),
        partial.is_prefix_of(subpath_cmds::<O>(sps[i])),
    ensures
        (seq![PathCmd::NewPath] + cmds_upto::<O>(sps, i) + partial).is_prefix_of(
            seq![PathCmd::NewPath] + cmds_upto::<O>(sps, sps.len() as int),
        ),
{
    let up_i = cmds_upto::<O>(sps, i);
    let sub = subpath_cmds::<O>(sps[i]);
    lemma_prefix_concat_left(up_i, partial, sub);
    assert(cmds_upto::<O>(sps, i + 1) == up_i + sub);
    lemma_upto_prefix::<O>(sps, i + 1, sps.len() as int);
    lemma_prefix_trans(up_i + partial, cmds_upto::<O>(sps, i + 1), cmds_upto::<O>(
        sps,
        sps.len() as int,
    ));
    lemma_prefix_concat_left(seq![PathCmd::NewPath], up_i + partial, cmds_upto::<O>(
        sps,
        sps.len() as int,
    ));
    assert(seq![PathCmd::NewPath] + up_i + partial =~= seq![PathCmd::NewPath] + (up_i + partial));
}

/// What every abort site establishes: the context's log is the caller's log
/// plus a non-empty prefix of the protocol's command sequence.
proof fn lemma_abort_shape(pre: Seq<PathCmd>, cur: Seq<PathCmd>, issued: Seq<PathCmd>, full: Seq<
    PathCmd,
>)
    requires
        cur == pre + issued,
        issued.is_prefix_of(full),
        issued.len() > 0,
    ensures
        pre.is_prefix_of(cur),
        cur.skip(pre.len() as int).is_prefix_of(full),
        cur.len() > pre.len(),
{
    lemma_concat_prefix(pre, issued);
    assert(cur.skip(pre.len() as int) =~= issued);
}

/// The camera that reconstructs a structured path from flat sample points
/// and drives a drawing context with it.
#[derive(Clone)]
pub struct CairoCamera;

impl CairoCamera {
    /// A fresh camera. The camera itself carries no state; every call works
    /// on the points and the context it is given.
    pub fn new() -> (r: CairoCamera) {
        CairoCamera
    }

    /// Reconstructs the path encoded by `points` and issues it to `ctx`.
    ///
    /// The protocol is fixed: one unconditional `new_path`; then, per
    /// subpath, `new_sub_path`, `move_to` its first point, one `curve_to`
    /// per cubic segment, and `close_path` exactly when the subpath's first
    /// and last points are tolerance-equal. The first failing context
    /// operation aborts the protocol: nothing more is issued, already-issued
    /// operations stay, and the failure surfaces as `ContextCall`. Whether
    /// any operation fails is the context's own affair, so success cannot be
    /// promised; what is promised is that the issued commands are always a
    /// prefix of the protocol's command sequence — the whole of it exactly
    /// when the call returns `Ok`.
    #[verifier::loop_isolation(false)]
    pub fn set_cairo_context_path<O: ToleranceOracle, C: PathContext>(
        &self,
        ctx: &mut C,
        points: &Vec<Point>,
    ) -> (r: Result<(), EmitError>)
        ensures
            old(ctx).log().is_prefix_of(final(ctx).log()),
            final(ctx).log().skip(old(ctx).log().len() as int).is_prefix_of(
                emit_cmds::<O>(points@),
            ),
            r is Ok ==> final(ctx).log() == old(ctx).log() + emit_cmds::<O>(points@),
            r is Err ==> r == Err::<(), EmitError>(EmitError::ContextCall)
                && final(ctx).log().len() > old(ctx).log().len(),
    {
        let ghost pre = ctx.log();
        let ghost sps = subpaths_of::<O>(points@);
        let ghost full = emit_cmds::<O>(points@);
        proof {
            assert(full == seq![PathCmd::NewPath] + cmds_upto::<O>(sps, sps.len() as int));
        }

        let np = ctx.new_path();
        proof {
            assert(cmds_upto::<O>(sps, 0) == Seq::<PathCmd>::empty());
            assert(ctx.log() =~= pre + (seq![PathCmd::NewPath] + cmds_upto::<O>(sps, 0)));
        }
        if np.is_err() {
            proof {
                lemma_upto_prefix::<O>(sps, 0, sps.len() as int);
                lemma_prefix_concat_left(
                    seq![PathCmd::NewPath],
                    cmds_upto::<O>(sps, 0),
                    cmds_upto::<O>(sps, sps.len() as int),
                );
                lemma_abort_shape(
                    pre,
                    ctx.log(),
                    seq![PathCmd::NewPath] + cmds_upto::<O>(sps, 0),
                    full,
                );
            }
            return Err(EmitError::ContextCall);
        }

        let subs = gen_subpaths_from_points_2d::<O>(points);
        let mut si: usize = 0;
        while si < subs.len()
            invariant
                si <= subs@.len(),
                ctx.log() == pre + seq![PathCmd::NewPath] + cmds_upto::<O>(sps, si as int),
            decreases subs@.len() - si,
        {
            let sp = &subs[si];
            let ghost spseq = sps[si as int];
            let ghost base = pre + seq![PathCmd::NewPath] + cmds_upto::<O>(sps, si as int);
            proof {
                assert(sp@ == spseq);
                assert(sp@.len() >= 4);
            }

            let c1 = ctx.new_sub_path();
            proof {
                assert(ctx.log() =~= base + seq![PathCmd::NewSubPath]);
                assert(subpath_cmds::<O>(spseq)[0] == PathCmd::NewSubPath);
            }
            if c1.is_err() {
                proof {
                    assert(seq![PathCmd::NewSubPath] =~= subpath_cmds::<O>(spseq).subrange(0, 1));
                    lemma_issued_prefix::<O>(sps, si as int, seq![PathCmd::NewSubPath]);
                    assert(ctx.log() =~= pre + (seq![PathCmd::NewPath] + cmds_upto::<O>(
                        sps,
                        si as int,
                    ) + seq![PathCmd::NewSubPath]));
                    lemma_abort_shape(
                        pre,
                        ctx.log(),
                        seq![PathCmd::NewPath] + cmds_upto::<O>(sps, si as int)
                            + seq![PathCmd::NewSubPath],
                        full,
                    );
                }
                return Err(EmitError::ContextCall);
            }

            let p0 = sp[0];
            let ghost mtc = PathCmd::MoveTo { x: spseq[0].x, y: spseq[0].y };
            let ghost head = seq![PathCmd::NewSubPath, mtc];
            let c2 = ctx.move_to(p0.x, p0.y);
            proof {
                assert(ctx.log() =~= base + head);
                assert(subpath_cmds::<O>(spseq)[1] == mtc);
            }
            if c2.is_err() {
                proof {
                    assert(head =~= subpath_cmds::<O>(spseq).subrange(0, 2));
                    lemma_issued_prefix::<O>(sps, si as int, head);
                    assert(ctx.log() =~= pre + (seq![PathCmd::NewPath] + cmds_upto::<O>(
                        sps,
                        si as int,
                    ) + head));
                    lemma_abort_shape(
                        pre,
                        ctx.log(),
                        seq![PathCmd::NewPath] + cmds_upto::<O>(sps, si as int) + head,
                        full,
                    );
                }
                return Err(EmitError::ContextCall);
            }

            let quads = gen_cubic_bezier_tuples_from_points(sp);
            proof {
                assert(quads@ == quads_of(spseq));
                assert(quads@.len() == curve_cmds(spseq).len());
            }
            let mut qi: usize = 0;
            while qi < quads.len()
                invariant
                    qi <= quads@.len(),
                    ctx.log() == base + head + curve_cmds(spseq).take(qi as int),
                decreases quads@.len() - qi,
            {
                let q = quads[qi];
                let cc = ctx.curve_to(q.p1.x, q.p1.y, q.p2.x, q.p2.y, q.p3.x, q.p3.y);
                proof {
                    assert(curve_cmds(spseq)[qi as int] == (PathCmd::CurveTo {
                        x1: q.p1.x,
                        y1: q.p1.y,
                        x2: q.p2.x,
                        y2: q.p2.y,
                        x3: q.p3.x,
                        y3: q.p3.y,
                    }));
                    assert(curve_cmds(spseq).take(qi as int + 1) =~= curve_cmds(spseq).take(
                        qi as int,
                    ).push(curve_cmds(spseq)[qi as int]));
                    assert(ctx.log() =~= base + head + curve_cmds(spseq).take(qi as int + 1));
                }
                if cc.is_err() {
                    proof {
                        let partial = head + curve_cmds(spseq).take(qi as int + 1);
                        assert(curve_cmds(spseq).take(qi as int + 1).is_prefix_of(
                            curve_cmds(spseq),
                        )) by {
                            assert(curve_cmds(spseq).take(qi as int + 1) =~= curve_cmds(
                                spseq,
                            ).subrange(0, qi as int + 1));
                        }
                        lemma_concat_prefix(
                            curve_cmds(spseq),
                            if O::close_spec(spseq[0], spseq[spseq.len() - 1]) {
                                seq![PathCmd::ClosePath]
                            } else {
                                Seq::<PathCmd>::empty()
                            },
                        );
                        lemma_prefix_trans(
                            curve_cmds(spseq).take(qi as int + 1),
                            curve_cmds(spseq),
                            subpath_cmds::<O>(spseq).skip(2),
                        );
                        assert(subpath_cmds::<O>(spseq).skip(2) =~= curve_cmds(spseq) + (
                        if O::close_spec(spseq[0], spseq[spseq.len() - 1]) {
                            seq![PathCmd::ClosePath]
                        } else {
                            Seq::<PathCmd>::empty()
                        }));
                        lemma_prefix_concat_left(
                            head,
                            curve_cmds(spseq).take(qi as int + 1),
                            subpath_cmds::<O>(spseq).skip(2),
                        );
                        assert(head + subpath_cmds::<O>(spseq).skip(2) =~= subpath_cmds::<O>(
                            spseq,
                        ));
                        lemma_issued_prefix::<O>(sps, si as int, partial);
                        assert(ctx.log() =~= pre + (seq![PathCmd::NewPath] + cmds_upto::<O>(
                            sps,
                            si as int,
                        ) + partial));
                        lemma_abort_shape(
                            pre,
                            ctx.log(),
                            seq![PathCmd::NewPath] + cmds_upto::<O>(sps, si as int) + partial,
                            full,
                        );
                    }
                    return Err(EmitError::ContextCall);
                }
                qi += 1;
            }
            proof {
                assert(curve_cmds(spseq).take(quads@.len() as int) =~= curve_cmds(spseq));
            }

            let first = sp[0];
            let last = sp[sp.len() - 1];
            let closes = O::approx_eq(&first, &last);
            proof {
                assert(closes == O::close_spec(spseq[0], spseq[spseq.len() - 1]));
            }
            if closes {
                let c3 = ctx.close_path();
                proof {
                    assert(ctx.log() =~= base + (head + curve_cmds(spseq)
                        + seq![PathCmd::ClosePath]));
                    assert(head + curve_cmds(spseq) + seq![PathCmd::ClosePath]
                        =~= subpath_cmds::<O>(spseq));
                }
                if c3.is_err() {
                    proof {
                        lemma_self_prefix(subpath_cmds::<O>(spseq));
                        lemma_issued_prefix::<O>(sps, si as int, subpath_cmds::<O>(spseq));
                        assert(ctx.log() =~= pre + (seq![PathCmd::NewPath] + cmds_upto::<O>(
                            sps,
                            si as int,
                        ) + subpath_cmds::<O>(spseq)));
                        lemma_abort_shape(
                            pre,
                            ctx.log(),
                            seq![PathCmd::NewPath] + cmds_upto::<O>(sps, si as int)
                                + subpath_cmds::<O>(spseq),
                            full,
                        );
                    }
                    return Err(EmitError::ContextCall);
                }
            } else {
                proof {
                    assert(head + curve_cmds(spseq) =~= subpath_cmds::<O>(spseq));
                    assert(ctx.log() =~= base + (head + curve_cmds(spseq)));
                }
            }
            proof {
                assert(ctx.log() == base + subpath_cmds::<O>(spseq));
                assert(cmds_upto::<O>(sps, si as int + 1) == cmds_upto::<O>(sps, si as int)
                    + subpath_cmds::<O>(spseq));
                assert(ctx.log() =~= pre + seq![PathCmd::NewPath] + cmds_upto::<O>(
                    sps,
                    si as int + 1,
                ));
            }
            si += 1;
        }

        proof {
            assert(si == sps.len());
            assert(ctx.log() =~= pre + full);
            lemma_concat_prefix(pre, full);
            assert(ctx.log().skip(pre.len() as int) =~= full);
            lemma_self_prefix(full);
        }
        Ok(())
    }
}

} // verus!
