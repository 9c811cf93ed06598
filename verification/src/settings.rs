//! The choices the settings store: the sleep screen, the side keys, image rotation.

use vstd::prelude::*;

verus! {

/// Which sleep screen to show.
#[derive(Clone, Copy, Debug, PartialEq, Eq, Structural)]
pub enum SleepVariant {
    /// Full-bleed cover with a band.
    Cover,
    /// Finish-by poster.
    Poster,
    /// Quote of the day.
    Quote,
    /// Custom image from the card.
    Custom,
    /// The page itself, screened.
    QuickResume,
    /// Blank paper.
    Blank,
}

/// The display name of a sleep screen.
pub open spec fn variant_name(v: SleepVariant) -> Seq<char> {
    match v {
        SleepVariant::Cover => "Cover"@,
        SleepVariant::Poster => "Poster"@,
        SleepVariant::Quote => "Quote"@,
        SleepVariant::Custom => "Custom"@,
        SleepVariant::QuickResume => "Quick resume"@,
        SleepVariant::Blank => "Blank"@,
    }
}

impl SleepVariant {
    /// All variants in picker order.
    pub fn all() -> (a: [SleepVariant; 6])
        ensures
            a@ == seq![
                SleepVariant::Cover,
                SleepVariant::Poster,
                SleepVariant::Quote,
                SleepVariant::Custom,
                SleepVariant::QuickResume,
                SleepVariant::Blank,
            ],
    {
        let a = [
            SleepVariant::Cover,
            SleepVariant::Poster,
            SleepVariant::Quote,
            SleepVariant::Custom,
            SleepVariant::QuickResume,
            SleepVariant::Blank,
        ];
        assert(a@ =~= seq![
            SleepVariant::Cover,
            SleepVariant::Poster,
            SleepVariant::Quote,
            SleepVariant::Custom,
            SleepVariant::QuickResume,
            SleepVariant::Blank,
        ]);
        a
    }

    /// Display name.
    pub fn name(self) -> (s: &'static str)
        ensures
            s@ == variant_name(self),
    {
        match self {
            SleepVariant::Cover => "Cover",
            SleepVariant::Poster => "Poster",
            SleepVariant::Quote => "Quote",
            SleepVariant::Custom => "Custom",
            SleepVariant::QuickResume => "Quick resume",
            SleepVariant::Blank => "Blank",
        }
    }
}

impl Default for SleepVariant {
    fn default() -> (v: SleepVariant)
        ensures
            v == SleepVariant::Cover,
    {
        SleepVariant::Cover
    }
}

/// What the side keys do on the reading page.
#[derive(Clone, Copy, Debug, PartialEq, Eq, Structural)]
pub enum SideKeys {
    /// Previous / next page.
    Pages,
    /// Previous / next chapter.
    Chapters,
}

impl Default for SideKeys {
    fn default() -> (k: SideKeys)
        ensures
            k == SideKeys::Pages,
    {
        SideKeys::Pages
    }
}

/// Rotation of custom sleep images.
#[derive(Clone, Copy, Debug, PartialEq, Eq, Structural)]
pub enum ImageRotation {
    /// Always the chosen image.
    Fixed,
    /// A new one each sleep.
    EachSleep,
    /// A new one each day.
    Daily,
}

impl Default for ImageRotation {
    fn default() -> (r: ImageRotation)
        ensures
            r == ImageRotation::Fixed,
    {
        ImageRotation::Fixed
    }
}

} // verus!
