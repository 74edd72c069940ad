use vstd::prelude::*;
use crate::correction::Epicycle;
use crate::motion::Motion;
use crate::position::{Body, BodyClass};

verus! {

/// The Sun: 4320848.34408488 revolutions a great cycle.
pub fn sun() -> (r: Body)
    ensures
        r.wf(),
        r.class is Luminary,
        r == (Body {
            class: BodyClass::Luminary,
            motion: Motion { rate: 432_084_834_408_488, offset: 358_230_697_950 },
            manda: Epicycle { even: 14_000_000, odd: 13_670_000 },
            apogee: Motion { rate: -16_746_602_982i64, offset: 150_653_876_260 },
        }),
{
    Body {
        class: BodyClass::Luminary,
        motion: Motion { rate: 432_084_834_408_488, offset: 358_230_697_950 },
        manda: Epicycle { even: 14_000_000, odd: 13_670_000 },
        apogee: Motion { rate: -16_746_602_982i64, offset: 150_653_876_260 },
    }
}

/// The Moon, whose apogee moves fast.
pub fn moon() -> (r: Body)
    ensures
        r.wf(),
        r.class is Luminary,
        r == (Body {
            class: BodyClass::Luminary,
            motion: Motion { rate: 5_775_334_292_393_804, offset: 188_960 },
            manda: Epicycle { even: 32_000_000, odd: 31_670_000 },
            apogee: Motion { rate: 49_430_042_432_448, offset: 359_999_999_230 },
        }),
{
    Body {
        class: BodyClass::Luminary,
        motion: Motion { rate: 5_775_334_292_393_804, offset: 188_960 },
        manda: Epicycle { even: 32_000_000, odd: 31_670_000 },
        apogee: Motion { rate: 49_430_042_432_448, offset: 359_999_999_230 },
    }
}

/// Mars.
pub fn mars() -> (r: Body)
    ensures
        r.wf(),
        r.class is Outer,
        r == (Body {
            class: BodyClass::Outer { sighra: Epicycle { even: 235_000_000, odd: 232_000_000 } },
            motion: Motion { rate: 229_681_259_669_639, offset: 11_084_052_000 },
            manda: Epicycle { even: 75_000_000, odd: 72_000_000 },
            apogee: Motion { rate: 4_143_232_597, offset: 292_325_806_880 },
        }),
{
    Body {
        class: BodyClass::Outer { sighra: Epicycle { even: 235_000_000, odd: 232_000_000 } },
        motion: Motion { rate: 229_681_259_669_639, offset: 11_084_052_000 },
        manda: Epicycle { even: 75_000_000, odd: 72_000_000 },
        apogee: Motion { rate: 4_143_232_597, offset: 292_325_806_880 },
    }
}

/// Mercury, whose own mean motion gives its conjunction point.
pub fn mercury() -> (r: Body)
    ensures
        r.wf(),
        r.class is Inner,
        r == (Body {
            class: BodyClass::Inner { sighra: Epicycle { even: 133_000_000, odd: 132_000_000 } },
            motion: Motion { rate: 1_793_710_089_276_243, offset: 337_294_022_750 },
            manda: Epicycle { even: 30_000_000, odd: 28_000_000 },
            apogee: Motion { rate: 213_840_157, offset: 45_061_328_330 },
        }),
{
    Body {
        class: BodyClass::Inner { sighra: Epicycle { even: 133_000_000, odd: 132_000_000 } },
        motion: Motion { rate: 1_793_710_089_276_243, offset: 337_294_022_750 },
        manda: Epicycle { even: 30_000_000, odd: 28_000_000 },
        apogee: Motion { rate: 213_840_157, offset: 45_061_328_330 },
    }
}

/// Jupiter.
pub fn jupiter() -> (r: Body)
    ensures
        r.wf(),
        r.class is Outer,
        r == (Body {
            class: BodyClass::Outer { sighra: Epicycle { even: 70_000_000, odd: 72_000_000 } },
            motion: Motion { rate: 36_419_178_110_405, offset: 7_811_646_080 },
            manda: Epicycle { even: 33_000_000, odd: 32_000_000 },
            apogee: Motion { rate: -289_738_145i64, offset: 351_080_262_880 },
        }),
{
    Body {
        class: BodyClass::Outer { sighra: Epicycle { even: 70_000_000, odd: 72_000_000 } },
        motion: Motion { rate: 36_419_178_110_405, offset: 7_811_646_080 },
        manda: Epicycle { even: 33_000_000, odd: 32_000_000 },
        apogee: Motion { rate: -289_738_145i64, offset: 351_080_262_880 },
    }
}

/// Venus, whose own mean motion gives its conjunction point.
pub fn venus() -> (r: Body)
    ensures
        r.wf(),
        r.class is Inner,
        r == (Body {
            class: BodyClass::Inner { sighra: Epicycle { even: 262_000_000, odd: 260_000_000 } },
            motion: Motion { rate: 701_139_958_589_762, offset: 359_999_783_050 },
            manda: Epicycle { even: 12_000_000, odd: 11_000_000 },
            apogee: Motion { rate: 15_838, offset: 158_680 },
        }),
{
    Body {
        class: BodyClass::Inner { sighra: Epicycle { even: 262_000_000, odd: 260_000_000 } },
        motion: Motion { rate: 701_139_958_589_762, offset: 359_999_783_050 },
        manda: Epicycle { even: 12_000_000, odd: 11_000_000 },
        apogee: Motion { rate: 15_838, offset: 158_680 },
    }
}

/// Saturn.
pub fn saturn() -> (r: Body)
    ensures
        r.wf(),
        r.class is Outer,
        r == (Body {
            class: BodyClass::Outer { sighra: Epicycle { even: 39_000_000, odd: 40_000_000 } },
            motion: Motion { rate: 14_670_422_608_823, offset: 309_702_857_870 },
            manda: Epicycle { even: 49_000_000, odd: 48_000_000 },
            apogee: Motion { rate: 14_330_051_754, offset: 3_553_757_120 },
        }),
{
    Body {
        class: BodyClass::Outer { sighra: Epicycle { even: 39_000_000, odd: 40_000_000 } },
        motion: Motion { rate: 14_670_422_608_823, offset: 309_702_857_870 },
        manda: Epicycle { even: 49_000_000, odd: 48_000_000 },
        apogee: Motion { rate: 14_330_051_754, offset: 3_553_757_120 },
    }
}

/// The Moon's ascending node, in retrograde motion.
pub fn lunar_node() -> (r: Motion)
    ensures
        r.rate < 0,
        r == (Motion { rate: -23_226_944_830_466i64, offset: 189_472_383_760 }),
{
    Motion { rate: -23_226_944_830_466i64, offset: 189_472_383_760 }
}

} // verus!
