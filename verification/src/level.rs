//! Levels of a character, and the experience that they stand for.

use vstd::prelude::*;

verus! {

/// What a player has achieved in a session.
#[derive(Debug, PartialEq)]
pub struct PlayerStats {
    pub kills: i32,
    pub xp_accrual: u64,
}

impl Clone for PlayerStats {
    fn clone(&self) -> (copy: Self)
        ensures
            copy == *self,
    {
        PlayerStats { kills: self.kills, xp_accrual: self.xp_accrual }
    }
}

impl Default for PlayerStats {
    fn default() -> (stats: Self)
        ensures
            stats.kills == 0,
            stats.xp_accrual == 0,
    {
        PlayerStats { kills: 0, xp_accrual: 0 }
    }
}

/// The name of the scene that a session starts in.
pub fn default_scene() -> (scene: String)
    ensures
        scene@ == "BaseScene"@,
{
    "BaseScene".to_owned()
}

/// The level of a character.
#[derive(Debug, PartialEq, PartialOrd)]
pub struct Lvl(pub i32);

impl Clone for Lvl {
    fn clone(&self) -> (copy: Self)
        ensures
            copy == *self,
    {
        Lvl(self.0)
    }
}

impl Default for Lvl {
    fn default() -> (level: Self)
        ensures
            level.0 == 1,
    {
        Lvl(1)
    }
}

/// The highest level whose experience is representable.
pub const TOP_LEVEL: i32 = 88;

/// The experience of `level`: the whole part of the exponential of the level, in double
/// precision. Levels below zero hold none, and levels above the top level hold the largest
/// amount there is.
pub open spec fn level_xp(level: int) -> u128 {
    if level < 0 {
        0
    } else if level > TOP_LEVEL {
        u128::MAX
    } else {
        table_xp(level)
    }
}

/// The experience of each level from zero to the top level.
pub open spec fn table_xp(level: int) -> u128 {
    if level == 0 {
        1
    } else if level == 1 {
        2
    } else if level == 2 {
        7
    } else if level == 3 {
        20
    } else if level == 4 {
        54
    } else if level == 5 {
        148
    } else if level == 6 {
        403
    } else if level == 7 {
        1096
    } else if level == 8 {
        2980
    } else if level == 9 {
        8103
    } else if level == 10 {
        22026
    } else if level == 11 {
        59874
    } else if level == 12 {
        162754
    } else if level == 13 {
        442413
    } else if level == 14 {
        1202604
    } else if level == 15 {
        3269017
    } else if level == 16 {
        8886110
    } else if level == 17 {
        24154952
    } else if level == 18 {
        65659969
    } else if level == 19 {
        178482300
    } else if level == 20 {
        485165195
    } else if level == 21 {
        1318815734
    } else if level == 22 {
        3584912846
    } else if level == 23 {
        9744803446
    } else if level == 24 {
        26489122129
    } else if level == 25 {
        72004899337
    } else if level == 26 {
        195729609428
    } else if level == 27 {
        532048240601
    } else if level == 28 {
        1446257064291
    } else if level == 29 {
        3931334297144
    } else if level == 30 {
        10686474581524
    } else if level == 31 {
        29048849665247
    } else if level == 32 {
        78962960182680
    } else if level == 33 {
        214643579785916
    } else if level == 34 {
        583461742527454
    } else if level == 35 {
        1586013452313430
    } else if level == 36 {
        4311231547115195
    } else if level == 37 {
        11719142372802612
    } else if level == 38 {
        31855931757113756
    } else if level == 39 {
        86593400423993744
    } else if level == 40 {
        235385266837020000
    } else if level == 41 {
        639843493530054912
    } else if level == 42 {
        1739274941520500992
    } else if level == 43 {
        4727839468229346304
    } else if level == 44 {
        12851600114359308288
    } else if level == 45 {
        34934271057485094912
    } else if level == 46 {
        94961194206024482816
    } else if level == 47 {
        258131288619006754816
    } else if level == 48 {
        701673591209763143680
    } else if level == 49 {
        1907346572495099789312
    } else if level == 50 {
        5184705528587072045056
    } else if level == 51 {
        14093490824269388578816
    } else if level == 52 {
        38310080007165769154560
    } else if level == 53 {
        104137594330290885492736
    } else if level == 54 {
        283075330327469394755584
    } else if level == 55 {
        769478526514201752502272
    } else if level == 56 {
        2091659496012996103110656
    } else if level == 57 {
        5685719999335932014624768
    } else if level == 58 {
        15455389355901039182610432
    } else if level == 59 {
        42012104037905144311971840
    } else if level == 60 {
        114200738981568423454048256
    } else if level == 61 {
        310429793570191987473121280
    } else if level == 62 {
        843835666874145383188004864
    } else if level == 63 {
        2293783159469609954760982528
    } else if level == 64 {
        6235149080811616743911849984
    } else if level == 65 {
        16948892444103337803358666752
    } else if level == 66 {
        46071866343312917806440251392
    } else if level == 67 {
        125236317084221369326178926592
    } else if level == 68 {
        340427604993174075826736463872
    } else if level == 69 {
        925378172558778718688878002176
    } else if level == 70 {
        2515438670919166879789330989056
    } else if level == 71 {
        6837671229762744147024034136064
    } else if level == 72 {
        18586717452841278870244552605696
    } else if level == 73 {
        50523936302761039454341181734912
    } else if level == 74 {
        137338297954017610774568497053696
    } else if level == 75 {
        373324199679900148487366050316288
    } else if level == 76 {
        1014800388113888746146344200044544
    } else if level == 77 {
        2758513454523170321189676423053312
    } else if level == 78 {
        7498416996990120907011471506931712
    } else if level == 79 {
        20382810665126688239604997451415552
    } else if level == 80 {
        55406223843935098344518031635382272
    } else if level == 81 {
        150609731458503061892247354869809152
    } else if level == 82 {
        409399696212745451138432050426544128
    } else if level == 83 {
        1112863754791759440048804931959783424
    } else if level == 84 {
        3025077322201142562234189425024172032
    } else if level == 85 {
        8223012714622913101995625382930284544
    } else if level == 86 {
        22352466037347149741613836874748526592
    } else if level == 87 {
        60760302250568719065170691650937159680
    } else {
        165163625499400180986996598802797821952
    }
}

/// The least experience that makes a character of `level`: the least amount whose natural
/// logarithm, in double precision, is at least the level below. The levels run from one to
/// one above the top level.
pub open spec fn first_xp(level: int) -> u128 {
    if level == 1 {
        1
    } else if level == 2 {
        3
    } else if level == 3 {
        8
    } else if level == 4 {
        21
    } else if level == 5 {
        55
    } else if level == 6 {
        149
    } else if level == 7 {
        404
    } else if level == 8 {
        1097
    } else if level == 9 {
        2981
    } else if level == 10 {
        8104
    } else if level == 11 {
        22027
    } else if level == 12 {
        59875
    } else if level == 13 {
        162755
    } else if level == 14 {
        442414
    } else if level == 15 {
        1202605
    } else if level == 16 {
        3269018
    } else if level == 17 {
        8886111
    } else if level == 18 {
        24154953
    } else if level == 19 {
        65659970
    } else if level == 20 {
        178482301
    } else if level == 21 {
        485165196
    } else if level == 22 {
        1318815735
    } else if level == 23 {
        3584912847
    } else if level == 24 {
        9744803447
    } else if level == 25 {
        26489122130
    } else if level == 26 {
        72004899338
    } else if level == 27 {
        195729609429
    } else if level == 28 {
        532048240602
    } else if level == 29 {
        1446257064292
    } else if level == 30 {
        3931334297145
    } else if level == 31 {
        10686474581525
    } else if level == 32 {
        29048849665248
    } else if level == 33 {
        78962960182681
    } else if level == 34 {
        214643579785916
    } else if level == 35 {
        583461742527453
    } else if level == 36 {
        1586013452313426
    } else if level == 37 {
        4311231547115180
    } else if level == 38 {
        11719142372802570
    } else if level == 39 {
        31855931757113643
    } else if level == 40 {
        86593400423993432
    } else if level == 41 {
        235385266837019153
    } else if level == 42 {
        639843493530052673
    } else if level == 43 {
        1739274941520494976
    } else if level == 44 {
        4727839468229329409
    } else if level == 45 {
        12851600114359262208
    } else if level == 46 {
        34934271057484969984
    } else if level == 47 {
        94961194206024146945
    } else if level == 48 {
        258131288619005820928
    } else if level == 49 {
        701673591209760718849
    } else if level == 50 {
        1907346572495092842497
    } else if level == 51 {
        5184705528587053694976
    } else if level == 52 {
        14093490824269337198593
    } else if level == 53 {
        38310080007165630742528
    } else if level == 54 {
        104137594330290508005377
    } else if level == 55 {
        283075330327468371345409
    } else if level == 56 {
        769478526514199001038849
    } else if level == 57 {
        2091659496012988721135616
    } else if level == 58 {
        5685719999335912150401025
    } else if level == 59 {
        15455389355900984421777408
    } else if level == 60 {
        42012104037904993988116480
    } else if level == 61 {
        114200738981568019727122433
    } else if level == 62 {
        310429793570190922321231872
    } else if level == 63 {
        843835666874142428250505216
    } else if level == 64 {
        2293783159469601845862727681
    } else if level == 65 {
        6235149080811550223458369537
    } else if level == 66 {
        16948892444103215757567983616
    } else if level == 67 {
        46071866343312587952951918592
    } else if level == 68 {
        125236317084220480920783683584
    } else if level == 69 {
        340427604993171648105062334465
    } else if level == 70 {
        925378172558772174395669479425
    } else if level == 71 {
        2515438670919149006128309862401
    } else if level == 72 {
        6837671229762695170378086481921
    } else if level == 73 {
        18586717452841147139955452018688
    } else if level == 74 {
        50523936302760683669970619465728
    } else if level == 75 {
        137338297954016647004248239767552
    } else if level == 76 {
        373324199679897518385183665946624
    } else if level == 77 {
        1014800388113881468329346369323008
    } else if level == 78 {
        2758513454523150433293721954942976
    } else if level == 79 {
        7498416996990067296161507288547329
    } else if level == 80 {
        20382810665126541818573912381849601
    } else if level == 81 {
        55406223843934706351206465307410433
    } else if level == 82 {
        150609731458501982757719042861039616
    } else if level == 83 {
        409399696212742536552868404317388801
    } else if level == 84 {
        1112863754791751544842341384271691777
    } else if level == 85 {
        3025077322201121016437111332267884545
    } else if level == 86 {
        8223012714622854662710399871070765056
    } else if level == 87 {
        22352466037346991542336660741633867777
    } else if level == 88 {
        60760302250568289329820750513222713344
    } else {
        165163625499399019284841812870075252736
    }
}

/// The greatest level from one to `bound` that `xp` makes.
pub open spec fn level_within(xp: u128, bound: int) -> int
    decreases bound,
{
    if bound <= 1 {
        1
    } else if first_xp(bound) <= xp {
        bound
    } else {
        level_within(xp, bound - 1)
    }
}

/// The level that `xp` makes: the greatest level whose least experience `xp` reaches. No
/// experience at all makes the lowest level there is.
pub open spec fn xp_level(xp: u128) -> int {
    if xp == 0 {
        i32::MIN as int
    } else {
        level_within(xp, TOP_LEVEL + 1)
    }
}

fn table_xp_at(level: i32) -> (xp: u128)
    requires
        0 <= level <= TOP_LEVEL,
    ensures
        xp == table_xp(level as int),
{
    if level == 0 {
        1
    } else if level == 1 {
        2
    } else if level == 2 {
        7
    } else if level == 3 {
        20
    } else if level == 4 {
        54
    } else if level == 5 {
        148
    } else if level == 6 {
        403
    } else if level == 7 {
        1096
    } else if level == 8 {
        2980
    } else if level == 9 {
        8103
    } else if level == 10 {
        22026
    } else if level == 11 {
        59874
    } else if level == 12 {
        162754
    } else if level == 13 {
        442413
    } else if level == 14 {
        1202604
    } else if level == 15 {
        3269017
    } else if level == 16 {
        8886110
    } else if level == 17 {
        24154952
    } else if level == 18 {
        65659969
    } else if level == 19 {
        178482300
    } else if level == 20 {
        485165195
    } else if level == 21 {
        1318815734
    } else if level == 22 {
        3584912846
    } else if level == 23 {
        9744803446
    } else if level == 24 {
        26489122129
    } else if level == 25 {
        72004899337
    } else if level == 26 {
        195729609428
    } else if level == 27 {
        532048240601
    } else if level == 28 {
        1446257064291
    } else if level == 29 {
        3931334297144
    } else if level == 30 {
        10686474581524
    } else if level == 31 {
        29048849665247
    } else if level == 32 {
        78962960182680
    } else if level == 33 {
        214643579785916
    } else if level == 34 {
        583461742527454
    } else if level == 35 {
        1586013452313430
    } else if level == 36 {
        4311231547115195
    } else if level == 37 {
        11719142372802612
    } else if level == 38 {
        31855931757113756
    } else if level == 39 {
        86593400423993744
    } else if level == 40 {
        235385266837020000
    } else if level == 41 {
        639843493530054912
    } else if level == 42 {
        1739274941520500992
    } else if level == 43 {
        4727839468229346304
    } else if level == 44 {
        12851600114359308288
    } else if level == 45 {
        34934271057485094912
    } else if level == 46 {
        94961194206024482816
    } else if level == 47 {
        258131288619006754816
    } else if level == 48 {
        701673591209763143680
    } else if level == 49 {
        1907346572495099789312
    } else if level == 50 {
        5184705528587072045056
    } else if level == 51 {
        14093490824269388578816
    } else if level == 52 {
        38310080007165769154560
    } else if level == 53 {
        104137594330290885492736
    } else if level == 54 {
        283075330327469394755584
    } else if level == 55 {
        769478526514201752502272
    } else if level == 56 {
        2091659496012996103110656
    } else if level == 57 {
        5685719999335932014624768
    } else if level == 58 {
        15455389355901039182610432
    } else if level == 59 {
        42012104037905144311971840
    } else if level == 60 {
        114200738981568423454048256
    } else if level == 61 {
        310429793570191987473121280
    } else if level == 62 {
        843835666874145383188004864
    } else if level == 63 {
        2293783159469609954760982528
    } else if level == 64 {
        6235149080811616743911849984
    } else if level == 65 {
        16948892444103337803358666752
    } else if level == 66 {
        46071866343312917806440251392
    } else if level == 67 {
        125236317084221369326178926592
    } else if level == 68 {
        340427604993174075826736463872
    } else if level == 69 {
        925378172558778718688878002176
    } else if level == 70 {
        2515438670919166879789330989056
    } else if level == 71 {
        6837671229762744147024034136064
    } else if level == 72 {
        18586717452841278870244552605696
    } else if level == 73 {
        50523936302761039454341181734912
    } else if level == 74 {
        137338297954017610774568497053696
    } else if level == 75 {
        373324199679900148487366050316288
    } else if level == 76 {
        1014800388113888746146344200044544
    } else if level == 77 {
        2758513454523170321189676423053312
    } else if level == 78 {
        7498416996990120907011471506931712
    } else if level == 79 {
        20382810665126688239604997451415552
    } else if level == 80 {
        55406223843935098344518031635382272
    } else if level == 81 {
        150609731458503061892247354869809152
    } else if level == 82 {
        409399696212745451138432050426544128
    } else if level == 83 {
        1112863754791759440048804931959783424
    } else if level == 84 {
        3025077322201142562234189425024172032
    } else if level == 85 {
        8223012714622913101995625382930284544
    } else if level == 86 {
        22352466037347149741613836874748526592
    } else if level == 87 {
        60760302250568719065170691650937159680
    } else {
        165163625499400180986996598802797821952
    }
}

fn first_xp_at(level: i32) -> (xp: u128)
    requires
        1 <= level <= TOP_LEVEL + 1,
    ensures
        xp == first_xp(level as int),
{
    if level == 1 {
        1
    } else if level == 2 {
        3
    } else if level == 3 {
        8
    } else if level == 4 {
        21
    } else if level == 5 {
        55
    } else if level == 6 {
        149
    } else if level == 7 {
        404
    } else if level == 8 {
        1097
    } else if level == 9 {
        2981
    } else if level == 10 {
        8104
    } else if level == 11 {
        22027
    } else if level == 12 {
        59875
    } else if level == 13 {
        162755
    } else if level == 14 {
        442414
    } else if level == 15 {
        1202605
    } else if level == 16 {
        3269018
    } else if level == 17 {
        8886111
    } else if level == 18 {
        24154953
    } else if level == 19 {
        65659970
    } else if level == 20 {
        178482301
    } else if level == 21 {
        485165196
    } else if level == 22 {
        1318815735
    } else if level == 23 {
        3584912847
    } else if level == 24 {
        9744803447
    } else if level == 25 {
        26489122130
    } else if level == 26 {
        72004899338
    } else if level == 27 {
        195729609429
    } else if level == 28 {
        532048240602
    } else if level == 29 {
        1446257064292
    } else if level == 30 {
        3931334297145
    } else if level == 31 {
        10686474581525
    } else if level == 32 {
        29048849665248
    } else if level == 33 {
        78962960182681
    } else if level == 34 {
        214643579785916
    } else if level == 35 {
        583461742527453
    } else if level == 36 {
        1586013452313426
    } else if level == 37 {
        4311231547115180
    } else if level == 38 {
        11719142372802570
    } else if level == 39 {
        31855931757113643
    } else if level == 40 {
        86593400423993432
    } else if level == 41 {
        235385266837019153
    } else if level == 42 {
        639843493530052673
    } else if level == 43 {
        1739274941520494976
    } else if level == 44 {
        4727839468229329409
    } else if level == 45 {
        12851600114359262208
    } else if level == 46 {
        34934271057484969984
    } else if level == 47 {
        94961194206024146945
    } else if level == 48 {
        258131288619005820928
    } else if level == 49 {
        701673591209760718849
    } else if level == 50 {
        1907346572495092842497
    } else if level == 51 {
        5184705528587053694976
    } else if level == 52 {
        14093490824269337198593
    } else if level == 53 {
        38310080007165630742528
    } else if level == 54 {
        104137594330290508005377
    } else if level == 55 {
        283075330327468371345409
    } else if level == 56 {
        769478526514199001038849
    } else if level == 57 {
        2091659496012988721135616
    } else if level == 58 {
        5685719999335912150401025
    } else if level == 59 {
        15455389355900984421777408
    } else if level == 60 {
        42012104037904993988116480
    } else if level == 61 {
        114200738981568019727122433
    } else if level == 62 {
        310429793570190922321231872
    } else if level == 63 {
        843835666874142428250505216
    } else if level == 64 {
        2293783159469601845862727681
    } else if level == 65 {
        6235149080811550223458369537
    } else if level == 66 {
        16948892444103215757567983616
    } else if level == 67 {
        46071866343312587952951918592
    } else if level == 68 {
        125236317084220480920783683584
    } else if level == 69 {
        340427604993171648105062334465
    } else if level == 70 {
        925378172558772174395669479425
    } else if level == 71 {
        2515438670919149006128309862401
    } else if level == 72 {
        6837671229762695170378086481921
    } else if level == 73 {
        18586717452841147139955452018688
    } else if level == 74 {
        50523936302760683669970619465728
    } else if level == 75 {
        137338297954016647004248239767552
    } else if level == 76 {
        373324199679897518385183665946624
    } else if level == 77 {
        1014800388113881468329346369323008
    } else if level == 78 {
        2758513454523150433293721954942976
    } else if level == 79 {
        7498416996990067296161507288547329
    } else if level == 80 {
        20382810665126541818573912381849601
    } else if level == 81 {
        55406223843934706351206465307410433
    } else if level == 82 {
        150609731458501982757719042861039616
    } else if level == 83 {
        409399696212742536552868404317388801
    } else if level == 84 {
        1112863754791751544842341384271691777
    } else if level == 85 {
        3025077322201121016437111332267884545
    } else if level == 86 {
        8223012714622854662710399871070765056
    } else if level == 87 {
        22352466037346991542336660741633867777
    } else if level == 88 {
        60760302250568289329820750513222713344
    } else {
        165163625499399019284841812870075252736
    }
}

impl Lvl {
    /// The experience of the level.
    pub fn to_xp(&self) -> (xp: u128)
        ensures
            xp == level_xp(self.0 as int),
    {
        if self.0 < 0 {
            0
        } else if self.0 > TOP_LEVEL {
            u128::MAX
        } else {
            table_xp_at(self.0)
        }
    }

    /// The level that `xp` makes.
    pub fn from_xp(xp: u128) -> (level: Self)
        ensures
            level.0 == xp_level(xp),
    {
        if xp == 0 {
            return Lvl(i32::MIN);
        }
        let mut level: i32 = TOP_LEVEL + 1;
        while level > 1 && first_xp_at(level) > xp
            invariant
                1 <= level <= TOP_LEVEL + 1,
                level_within(xp, TOP_LEVEL + 1) == level_within(xp, level as int),
            decreases level,
        {
            level = level - 1;
        }
        Lvl(level)
    }
}

} // verus!
