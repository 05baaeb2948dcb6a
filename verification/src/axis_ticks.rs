//! Axis annotation: tick rectangles and text labels computed from the same
//! coordinate transforms as the data, handed to an external drawing
//! capability as plain commands.

use vstd::prelude::*;
use vstd::string::StringExecFns;
use crate::BackGround;
use crate::transform::{
    spec_transform_accuracy_percent,
    spec_transform_length,
    transform_accuracy_percent,
    transform_length,
};

verus! {

/// A filled axis-aligned rectangle to draw, in the tick color.
#[derive(Copy, Clone, Debug, PartialEq, Eq, Structural)]
pub struct TickRect {
    pub x: i32,
    pub y: i32,
    pub w: u32,
    pub h: u32,
}

/// A text label to draw near a major tick, in the tick color.
#[derive(Clone, Debug)]
pub struct TickLabel {
    pub x: i32,
    pub y: i32,
    pub size: u32,
    pub text: String,
}

/// Ticks and labels are drawn white on black and black on white.
pub fn tick_color(background: BackGround) -> (c: (u8, u8, u8))
    ensures
        background == BackGround::Black ==> c == (255u8, 255u8, 255u8),
        background == BackGround::White ==> c == (0u8, 0u8, 0u8),
{
    match background {
        BackGround::Black => (255, 255, 255),
        BackGround::White => (0, 0, 0),
    }
}

/// The major length ticks: one per decade from 10 to 100,000.
pub open spec fn spec_major_x_tick(i: int) -> int {
    if i == 0 {
        10
    } else if i == 1 {
        100
    } else if i == 2 {
        1000
    } else if i == 3 {
        10000
    } else {
        100000
    }
}

/// The intermediate length ticks: the half-decades.
pub open spec fn spec_mid_x_tick(i: int) -> int {
    if i == 0 {
        5
    } else if i == 1 {
        50
    } else if i == 2 {
        500
    } else if i == 3 {
        5000
    } else if i == 4 {
        50000
    } else {
        500000
    }
}

/// Powers of ten for the minor length ticks.
pub open spec fn spec_minor_x_scale(m: int) -> int {
    if m == 0 {
        1
    } else if m == 1 {
        10
    } else if m == 2 {
        100
    } else if m == 3 {
        1000
    } else if m == 4 {
        10000
    } else {
        100000
    }
}

/// The minor length ticks: digits 2 through 9 (and 1) of every decade.
pub open spec fn spec_minor_x_tick(i: int) -> int {
    (i % 9 + 1) * spec_minor_x_scale(i / 9)
}

/// Major length ticks, drawn at the top edge.
pub open spec fn spec_x_major_top() -> Seq<TickRect> {
    Seq::new(5, |i: int| TickRect {
        x: spec_transform_length(spec_major_x_tick(i)) as i32,
        y: 0,
        w: 1,
        h: 12,
    })
}

/// Major length ticks, mirrored at the bottom edge.
pub open spec fn spec_x_major_bottom() -> Seq<TickRect> {
    Seq::new(5, |i: int| TickRect {
        x: spec_transform_length(spec_major_x_tick(i)) as i32,
        y: 588,
        w: 1,
        h: 12,
    })
}

/// Intermediate length ticks at the top edge.
pub open spec fn spec_x_mid() -> Seq<TickRect> {
    Seq::new(6, |i: int| TickRect {
        x: spec_transform_length(spec_mid_x_tick(i)) as i32,
        y: 0,
        w: 1,
        h: 6,
    })
}

/// Minor length ticks at the top edge.
pub open spec fn spec_x_minor() -> Seq<TickRect> {
    Seq::new(54, |i: int| TickRect {
        x: spec_transform_length(spec_minor_x_tick(i)) as i32,
        y: 0,
        w: 1,
        h: 2,
    })
}

/// Accuracy ticks in percent mode: major ticks at 80% and 90% on both
/// sides, intermediate ticks at 75%, 85% and 95%, and minor ticks at every
/// whole percent from 70.
pub open spec fn spec_y_percent() -> Seq<TickRect> {
    Seq::new(2, |i: int| TickRect {
        x: 588,
        y: spec_transform_accuracy_percent(8000 + 1000 * i) as i32,
        w: 12,
        h: 1,
    }) + Seq::new(2, |i: int| TickRect {
        x: 0,
        y: spec_transform_accuracy_percent(8000 + 1000 * i) as i32,
        w: 12,
        h: 1,
    }) + Seq::new(3, |i: int| TickRect {
        x: 594,
        y: spec_transform_accuracy_percent(7500 + 1000 * i) as i32,
        w: 6,
        h: 1,
    }) + Seq::new(30, |i: int| TickRect {
        x: 598,
        y: spec_transform_accuracy_percent(7000 + 100 * i) as i32,
        w: 2,
        h: 1,
    })
}

/// Accuracy ticks in phred mode: major ticks at Q10, Q20 and Q30 on both
/// sides, intermediate ticks at Q5, Q15, Q25 and Q35, and minor ticks at
/// every whole phred value.
pub open spec fn spec_y_phred() -> Seq<TickRect> {
    Seq::new(3, |i: int| TickRect { x: 588, y: (450 - 150 * i) as i32, w: 12, h: 1 }) + Seq::new(
        3,
        |i: int| TickRect { x: 0, y: (450 - 150 * i) as i32, w: 12, h: 1 },
    ) + Seq::new(4, |i: int| TickRect { x: 594, y: (75 + 150 * i) as i32, w: 6, h: 1 })
        + Seq::new(40, |i: int| TickRect { x: 598, y: (15 * i) as i32, w: 2, h: 1 })
}

/// All tick rectangles of the chosen mode.
pub open spec fn spec_tick_rects(phred: bool) -> Seq<TickRect> {
    spec_x_major_top() + spec_x_major_bottom() + spec_x_mid() + spec_x_minor() + if phred {
        spec_y_phred()
    } else {
        spec_y_percent()
    }
}

/// The text of the i-th major length label.
pub open spec fn spec_x_label_text(i: int) -> Seq<char> {
    if i == 0 {
        "10"@
    } else if i == 1 {
        "100"@
    } else if i == 2 {
        "1000"@
    } else if i == 3 {
        "10000"@
    } else {
        "100000"@
    }
}

/// The text of the i-th accuracy label in the chosen mode.
pub open spec fn spec_y_label_text(i: int, phred: bool) -> Seq<char> {
    if phred {
        if i == 0 {
            "Q10"@
        } else if i == 1 {
            "Q20"@
        } else {
            "Q30"@
        }
    } else {
        if i == 0 {
            "80%"@
        } else {
            "90%"@
        }
    }
}

/// Where the i-th label sits: length labels under the axis, offset left by
/// five pixels per digit; accuracy labels on the left edge beside their tick.
pub open spec fn spec_label_pos(i: int, phred: bool) -> (int, int) {
    if i < 5 {
        (spec_transform_length(spec_major_x_tick(i)) - 1 - 5 * (i + 2), 560)
    } else if phred {
        (15, 450 - 150 * (i - 5) - 10)
    } else {
        (15, spec_transform_accuracy_percent(8000 + 1000 * (i - 5)) - 10)
    }
}

/// How many labels the chosen mode draws.
pub open spec fn spec_label_count(phred: bool) -> int {
    if phred {
        8
    } else {
        7
    }
}

/// The text of the i-th label: the length decades first, then the
/// accuracy majors of the chosen mode.
pub open spec fn spec_label_text(i: int, phred: bool) -> Seq<char> {
    if i < 5 {
        spec_x_label_text(i)
    } else {
        spec_y_label_text(i - 5, phred)
    }
}

/// The i-th label carries the right position, font size and text.
pub open spec fn label_ok(l: TickLabel, i: int, phred: bool) -> bool {
    &&& (l.x as int, l.y as int) == spec_label_pos(i, phred)
    &&& l.size == 24
    &&& l.text@ == spec_label_text(i, phred)
}

/// Computes every tick rectangle and every label of the axis annotation
/// for the chosen accuracy mode, re-invoking the coordinate transforms at
/// the fixed domain values; an external drawing capability renders them.
pub fn add_ticks(phred: bool) -> (r: (Vec<TickRect>, Vec<TickLabel>))
    ensures
        r.0@ == spec_tick_rects(phred),
        r.1@.len() == spec_label_count(phred),
        forall|i: int| 0 <= i < spec_label_count(phred) ==> label_ok(#[trigger] r.1@[i], i, phred),
{
    let mut rects: Vec<TickRect> = Vec::new();
    // major length ticks, top edge
    let mut i: usize = 0;
    while i < 5
        invariant
            i <= 5,
            rects@ =~= spec_x_major_top().take(i as int),
        decreases 5 - i,
    {
        let tick = major_x_tick(i);
        let x = transform_length(tick) as i32;
        rects.push(TickRect { x, y: 0, w: 1, h: 12 });
        proof {
            assert(rects@ =~= spec_x_major_top().take(i + 1));
        }
        i = i + 1;
    }
    // major length ticks, bottom edge
    let ghost done1 = spec_x_major_top();
    proof {
        assert(rects@ =~= done1);
    }
    let mut i2: usize = 0;
    while i2 < 5
        invariant
            i2 <= 5,
            rects@ =~= done1 + spec_x_major_bottom().take(i2 as int),
        decreases 5 - i2,
    {
        let tick = major_x_tick(i2);
        let x = transform_length(tick) as i32;
        rects.push(TickRect { x, y: 588, w: 1, h: 12 });
        proof {
            assert(rects@ =~= done1 + spec_x_major_bottom().take(i2 + 1));
        }
        i2 = i2 + 1;
    }
    // intermediate length ticks
    let ghost done2 = done1 + spec_x_major_bottom();
    proof {
        assert(rects@ =~= done2);
    }
    let mut i3: usize = 0;
    while i3 < 6
        invariant
            i3 <= 6,
            rects@ =~= done2 + spec_x_mid().take(i3 as int),
        decreases 6 - i3,
    {
        let tick: usize = if i3 == 0 {
            5
        } else if i3 == 1 {
            50
        } else if i3 == 2 {
            500
        } else if i3 == 3 {
            5000
        } else if i3 == 4 {
            50000
        } else {
            500000
        };
        let x = transform_length(tick) as i32;
        rects.push(TickRect { x, y: 0, w: 1, h: 6 });
        proof {
            assert(rects@ =~= done2 + spec_x_mid().take(i3 + 1));
        }
        i3 = i3 + 1;
    }
    // minor length ticks
    let ghost done3 = done2 + spec_x_mid();
    proof {
        assert(rects@ =~= done3);
    }
    let mut i4: usize = 0;
    while i4 < 54
        invariant
            i4 <= 54,
            rects@ =~= done3 + spec_x_minor().take(i4 as int),
        decreases 54 - i4,
    {
        let m = i4 / 9;
        let scale: usize = if m == 0 {
            1
        } else if m == 1 {
            10
        } else if m == 2 {
            100
        } else if m == 3 {
            1000
        } else if m == 4 {
            10000
        } else {
            100000
        };
        let tick = (i4 % 9 + 1) * scale;
        let x = transform_length(tick) as i32;
        rects.push(TickRect { x, y: 0, w: 1, h: 2 });
        proof {
            assert(tick as int == spec_minor_x_tick(i4 as int));
            assert(rects@ =~= done3 + spec_x_minor().take(i4 + 1));
        }
        i4 = i4 + 1;
    }
    let ghost done4 = done3 + spec_x_minor();
    proof {
        assert(rects@ =~= done4);
    }
    // accuracy ticks
    if phred {
        let mut j: usize = 0;
        while j < 3
            invariant
                j <= 3,
                rects@ =~= done4 + Seq::new(3, |i: int| TickRect {
                    x: 588,
                    y: (450 - 150 * i) as i32,
                    w: 12,
                    h: 1,
                }).take(j as int),
            decreases 3 - j,
        {
            rects.push(TickRect { x: 588, y: 450 - 150 * (j as i32), w: 12, h: 1 });
            proof {
                assert(rects@ =~= done4 + Seq::new(3, |i: int| TickRect {
                    x: 588,
                    y: (450 - 150 * i) as i32,
                    w: 12,
                    h: 1,
                }).take(j + 1));
            }
            j = j + 1;
        }
        let ghost done5 = done4 + Seq::new(3, |i: int| TickRect {
            x: 588,
            y: (450 - 150 * i) as i32,
            w: 12,
            h: 1,
        });
        proof {
            assert(rects@ =~= done5);
        }
        let mut j2: usize = 0;
        while j2 < 3
            invariant
                j2 <= 3,
                rects@ =~= done5 + Seq::new(3, |i: int| TickRect {
                    x: 0,
                    y: (450 - 150 * i) as i32,
                    w: 12,
                    h: 1,
                }).take(j2 as int),
            decreases 3 - j2,
        {
            rects.push(TickRect { x: 0, y: 450 - 150 * (j2 as i32), w: 12, h: 1 });
            proof {
                assert(rects@ =~= done5 + Seq::new(3, |i: int| TickRect {
                    x: 0,
                    y: (450 - 150 * i) as i32,
                    w: 12,
                    h: 1,
                }).take(j2 + 1));
            }
            j2 = j2 + 1;
        }
        let ghost done6 = done5 + Seq::new(3, |i: int| TickRect {
            x: 0,
            y: (450 - 150 * i) as i32,
            w: 12,
            h: 1,
        });
        proof {
            assert(rects@ =~= done6);
        }
        let mut j3: usize = 0;
        while j3 < 4
            invariant
                j3 <= 4,
                rects@ =~= done6 + Seq::new(4, |i: int| TickRect {
                    x: 594,
                    y: (75 + 150 * i) as i32,
                    w: 6,
                    h: 1,
                }).take(j3 as int),
            decreases 4 - j3,
        {
            rects.push(TickRect { x: 594, y: 75 + 150 * (j3 as i32), w: 6, h: 1 });
            proof {
                assert(rects@ =~= done6 + Seq::new(4, |i: int| TickRect {
                    x: 594,
                    y: (75 + 150 * i) as i32,
                    w: 6,
                    h: 1,
                }).take(j3 + 1));
            }
            j3 = j3 + 1;
        }
        let ghost done7 = done6 + Seq::new(4, |i: int| TickRect {
            x: 594,
            y: (75 + 150 * i) as i32,
            w: 6,
            h: 1,
        });
        proof {
            assert(rects@ =~= done7);
        }
        let mut j4: usize = 0;
        while j4 < 40
            invariant
                j4 <= 40,
                rects@ =~= done7 + Seq::new(40, |i: int| TickRect {
                    x: 598,
                    y: (15 * i) as i32,
                    w: 2,
                    h: 1,
                }).take(j4 as int),
            decreases 40 - j4,
        {
            rects.push(TickRect { x: 598, y: 15 * (j4 as i32), w: 2, h: 1 });
            proof {
                assert(rects@ =~= done7 + Seq::new(40, |i: int| TickRect {
                    x: 598,
                    y: (15 * i) as i32,
                    w: 2,
                    h: 1,
                }).take(j4 + 1));
            }
            j4 = j4 + 1;
        }
        proof {
            assert(rects@ =~= spec_tick_rects(true));
        }
    } else {
        let mut j: usize = 0;
        while j < 2
            invariant
                j <= 2,
                rects@ =~= done4 + Seq::new(2, |i: int| TickRect {
                    x: 588,
                    y: spec_transform_accuracy_percent(8000 + 1000 * i) as i32,
                    w: 12,
                    h: 1,
                }).take(j as int),
            decreases 2 - j,
        {
            let y = transform_accuracy_percent(8000 + 1000 * (j as u32)) as i32;
            rects.push(TickRect { x: 588, y, w: 12, h: 1 });
            proof {
                assert(rects@ =~= done4 + Seq::new(2, |i: int| TickRect {
                    x: 588,
                    y: spec_transform_accuracy_percent(8000 + 1000 * i) as i32,
                    w: 12,
                    h: 1,
                }).take(j + 1));
            }
            j = j + 1;
        }
        let ghost done5 = done4 + Seq::new(2, |i: int| TickRect {
            x: 588,
            y: spec_transform_accuracy_percent(8000 + 1000 * i) as i32,
            w: 12,
            h: 1,
        });
        proof {
            assert(rects@ =~= done5);
        }
        let mut j2: usize = 0;
        while j2 < 2
            invariant
                j2 <= 2,
                rects@ =~= done5 + Seq::new(2, |i: int| TickRect {
                    x: 0,
                    y: spec_transform_accuracy_percent(8000 + 1000 * i) as i32,
                    w: 12,
                    h: 1,
                }).take(j2 as int),
            decreases 2 - j2,
        {
            let y = transform_accuracy_percent(8000 + 1000 * (j2 as u32)) as i32;
            rects.push(TickRect { x: 0, y, w: 12, h: 1 });
            proof {
                assert(rects@ =~= done5 + Seq::new(2, |i: int| TickRect {
                    x: 0,
                    y: spec_transform_accuracy_percent(8000 + 1000 * i) as i32,
                    w: 12,
                    h: 1,
                }).take(j2 + 1));
            }
            j2 = j2 + 1;
        }
        let ghost done6 = done5 + Seq::new(2, |i: int| TickRect {
            x: 0,
            y: spec_transform_accuracy_percent(8000 + 1000 * i) as i32,
            w: 12,
            h: 1,
        });
        proof {
            assert(rects@ =~= done6);
        }
        let mut j3: usize = 0;
        while j3 < 3
            invariant
                j3 <= 3,
                rects@ =~= done6 + Seq::new(3, |i: int| TickRect {
                    x: 594,
                    y: spec_transform_accuracy_percent(7500 + 1000 * i) as i32,
                    w: 6,
                    h: 1,
                }).take(j3 as int),
            decreases 3 - j3,
        {
            let y = transform_accuracy_percent(7500 + 1000 * (j3 as u32)) as i32;
            rects.push(TickRect { x: 594, y, w: 6, h: 1 });
            proof {
                assert(rects@ =~= done6 + Seq::new(3, |i: int| TickRect {
                    x: 594,
                    y: spec_transform_accuracy_percent(7500 + 1000 * i) as i32,
                    w: 6,
                    h: 1,
                }).take(j3 + 1));
            }
            j3 = j3 + 1;
        }
        let ghost done7 = done6 + Seq::new(3, |i: int| TickRect {
            x: 594,
            y: spec_transform_accuracy_percent(7500 + 1000 * i) as i32,
            w: 6,
            h: 1,
        });
        proof {
            assert(rects@ =~= done7);
        }
        let mut j4: usize = 0;
        while j4 < 30
            invariant
                j4 <= 30,
                rects@ =~= done7 + Seq::new(30, |i: int| TickRect {
                    x: 598,
                    y: spec_transform_accuracy_percent(7000 + 100 * i) as i32,
                    w: 2,
                    h: 1,
                }).take(j4 as int),
            decreases 30 - j4,
        {
            let y = transform_accuracy_percent(7000 + 100 * (j4 as u32)) as i32;
            rects.push(TickRect { x: 598, y, w: 2, h: 1 });
            proof {
                assert(rects@ =~= done7 + Seq::new(30, |i: int| TickRect {
                    x: 598,
                    y: spec_transform_accuracy_percent(7000 + 100 * i) as i32,
                    w: 2,
                    h: 1,
                }).take(j4 + 1));
            }
            j4 = j4 + 1;
        }
        proof {
            assert(rects@ =~= spec_tick_rects(false));
        }
    }
    // labels: the five major length decades, then the accuracy majors
    let mut labels: Vec<TickLabel> = Vec::new();
    let mut k: usize = 0;
    while k < 5
        invariant
            k <= 5,
            labels@.len() == k,
            forall|i: int| 0 <= i < k ==> label_ok(#[trigger] labels@[i], i, phred),
        decreases 5 - k,
    {
        let tick = major_x_tick(k);
        let x = transform_length(tick) as i32;
        let text: String = if k == 0 {
            String::from_str("10")
        } else if k == 1 {
            String::from_str("100")
        } else if k == 2 {
            String::from_str("1000")
        } else if k == 3 {
            String::from_str("10000")
        } else {
            String::from_str("100000")
        };
        let offset = 5 * (k as i32 + 2);
        labels.push(TickLabel { x: x - 1 - offset, y: 560, size: 24, text });
        proof {
            assert(label_ok(labels@[k as int], k as int, phred));
        }
        k = k + 1;
    }
    if phred {
        let mut k2: usize = 0;
        while k2 < 3
            invariant
                k2 <= 3,
                labels@.len() == 5 + k2,
                forall|i: int| 0 <= i < 5 + k2 ==> label_ok(#[trigger] labels@[i], i, true),
            decreases 3 - k2,
        {
            let text: String = if k2 == 0 {
                String::from_str("Q10")
            } else if k2 == 1 {
                String::from_str("Q20")
            } else {
                String::from_str("Q30")
            };
            labels.push(TickLabel { x: 15, y: 450 - 150 * (k2 as i32) - 10, size: 24, text });
            proof {
                assert(label_ok(labels@[5 + k2 as int], 5 + k2 as int, true));
            }
            k2 = k2 + 1;
        }
        (rects, labels)
    } else {
        let mut k2: usize = 0;
        while k2 < 2
            invariant
                k2 <= 2,
                labels@.len() == 5 + k2,
                forall|i: int| 0 <= i < 5 + k2 ==> label_ok(#[trigger] labels@[i], i, false),
            decreases 2 - k2,
        {
            let y = transform_accuracy_percent(8000 + 1000 * (k2 as u32)) as i32;
            let text: String = if k2 == 0 {
                String::from_str("80%")
            } else {
                String::from_str("90%")
            };
            labels.push(TickLabel { x: 15, y: y - 10, size: 24, text });
            proof {
                assert(label_ok(labels@[5 + k2 as int], 5 + k2 as int, false));
            }
            k2 = k2 + 1;
        }
        (rects, labels)
    }
}

/// The i-th major length tick value.
fn major_x_tick(i: usize) -> (t: usize)
    requires
        i < 5,
    ensures
        t as int == spec_major_x_tick(i as int),
        t >= 1,
{
    if i == 0 {
        10
    } else if i == 1 {
        100
    } else if i == 2 {
        1000
    } else if i == 3 {
        10000
    } else {
        100000
    }
}

} // verus!
