//! The `channels` command.
use vstd::prelude::*;
use crate::cli::ChannelsArgs;
use crate::error::{PanaudError, Result};
use crate::numparse::{parse_unsigned, spec_parse_unsigned};
use crate::ops::channels::{ChannelMode, ChannelSelector};
use crate::text::{all_digits, char_eq_ignore_ascii_case, is_digit, range_eq_ignore_ascii_case, seq_eq_ignore_ascii_case, str_chars};

verus! {

/// The channel selector named by `sel`: `left`/`l`, `right`/`r` (any letter case), or
/// a channel number as `u16::from_str` reads it.
pub open spec fn spec_selector(sel: Seq<char>) -> Option<ChannelSelector> {
    if seq_eq_ignore_ascii_case(sel, seq!['l', 'e', 'f', 't']) || seq_eq_ignore_ascii_case(sel, seq!['l']) {
        Some(ChannelSelector::Left)
    } else if seq_eq_ignore_ascii_case(sel, seq!['r', 'i', 'g', 'h', 't']) || seq_eq_ignore_ascii_case(sel, seq!['r']) {
        Some(ChannelSelector::Right)
    } else {
        match spec_parse_unsigned(sel, u16::MAX as nat) {
            Some(i) => Some(ChannelSelector::Index(i as u16)),
            None => None,
        }
    }
}

/// The channel mode that the `channels` flags ask for, first of `--mono`, `--stereo`,
/// `--count`, `--extract`.
pub fn parse_mode(args: &ChannelsArgs) -> (r: Result<ChannelMode>)
    ensures
        args.mono ==> r == Ok::<ChannelMode, PanaudError>(ChannelMode::Mono),
        !args.mono && args.stereo ==> r == Ok::<ChannelMode, PanaudError>(ChannelMode::Stereo),
        !args.mono && !args.stereo && args.count is Some ==> r == Ok::<ChannelMode, PanaudError>(
            ChannelMode::Count(args.count->0),
        ),
        !args.mono && !args.stereo && args.count is None && args.extract is Some ==> match spec_selector(
            args.extract->0@,
        ) {
            Some(s) => r == Ok::<ChannelMode, PanaudError>(ChannelMode::Extract(s)),
            None => (r matches Err(PanaudError::InvalidArgument { message, suggestion }) && message@
                == "invalid channel selector: '"@ + args.extract->0@ + "'"@ && suggestion@
                == "use 'left', 'right', or a numeric channel index (e.g. '0')"@),
        },
        !args.mono && !args.stereo && args.count is None && args.extract is None ==> (r matches Err(
            PanaudError::InvalidArgument { message, suggestion },
        ) && message@ == "no channel mode specified"@ && suggestion@
            == "use --mono, --stereo, --count <N>, or --extract <channel>"@),
{
    if args.mono {
        return Ok(ChannelMode::Mono);
    }
    if args.stereo {
        return Ok(ChannelMode::Stereo);
    }
    if let Some(n) = args.count {
        return Ok(ChannelMode::Count(n));
    }
    if let Some(sel) = &args.extract {
        let c = str_chars(sel.as_str());
        let n = c.len();
        proof {
            reveal_strlit("left");
            reveal_strlit("l");
            reveal_strlit("right");
            reveal_strlit("r");
            assert(c@.subrange(0, n as int) =~= sel@);
        }
        let selector = if range_eq_ignore_ascii_case(&c, 0, n, "left") || range_eq_ignore_ascii_case(&c, 0, n, "l") {
            ChannelSelector::Left
        } else if range_eq_ignore_ascii_case(&c, 0, n, "right") || range_eq_ignore_ascii_case(&c, 0, n, "r") {
            ChannelSelector::Right
        } else {
            match parse_unsigned(&c, 0, n, 65535) {
                Some(i) => ChannelSelector::Index(i as u16),
                None => {
                    let mut message = "invalid channel selector: '".to_owned();
                    message.append(sel.as_str());
                    message.append("'");
                    proof {
                        assert(message@ =~= "invalid channel selector: '"@ + sel@ + "'"@);
                    }
                    return Err(
                        PanaudError::InvalidArgument {
                            message,
                            suggestion: "use 'left', 'right', or a numeric channel index (e.g. '0')".to_owned(),
                        },
                    );
                },
            }
        };
        return Ok(ChannelMode::Extract(selector));
    }
    Err(
        PanaudError::InvalidArgument {
            message: "no channel mode specified".to_owned(),
            suggestion: "use --mono, --stereo, --count <N>, or --extract <channel>".to_owned(),
        },
    )
}

/// The selector words name the two channels in any letter case: `left` and `l` the left
/// channel, `right` and `r` the right one.
pub proof fn law_selector_words(sel: Seq<char>)
    ensures
        seq_eq_ignore_ascii_case(sel, seq!['l', 'e', 'f', 't']) || seq_eq_ignore_ascii_case(sel, seq!['l'])
            ==> spec_selector(sel) == Some(ChannelSelector::Left),
        seq_eq_ignore_ascii_case(sel, seq!['r', 'i', 'g', 'h', 't']) || seq_eq_ignore_ascii_case(sel, seq!['r'])
            ==> spec_selector(sel) == Some(ChannelSelector::Right),
{
    if seq_eq_ignore_ascii_case(sel, seq!['r']) {
        assert(!char_eq_ignore_ascii_case(sel[0], 'l'));
    }
}

/// A selector of decimal digits names the channel of that number (when it fits in a
/// `u16`).
pub proof fn law_selector_number(sel: Seq<char>, i: nat)
    requires
        sel.len() > 0,
        all_digits(sel),
        spec_parse_unsigned(sel, u16::MAX as nat) == Some(i),
    ensures
        spec_selector(sel) == Some(ChannelSelector::Index(i as u16)),
{
    assert(is_digit(sel[0]));
    assert(!char_eq_ignore_ascii_case(sel[0], 'l'));
    assert(!char_eq_ignore_ascii_case(sel[0], 'r'));
}

} // verus!
