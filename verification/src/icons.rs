//! The icons of the interface: their names, their numbering, and the table of their
//! images.
use vstd::prelude::*;
use crate::unit::{Unit, UnitKind};

verus! {

/// How many icons there are.
pub const ICONS_SIZE: usize = 14;

/// The icons, in the order of the image table.
#[derive(Debug, PartialEq, Eq, Structural, Clone, Copy, Hash)]
pub enum IconName {
    Folder,
    File,
    Video,
    Audio,
    Select,
    Close,
    Expand,
    Collapse,
    Download,
    Home,
    Upload,
    Up,
    Down,
    Retry,
}

/// The number of an icon: its place in the declaration, from 0.
pub open spec fn icon_index(n: IconName) -> nat {
    match n {
        IconName::Folder => 0,
        IconName::File => 1,
        IconName::Video => 2,
        IconName::Audio => 3,
        IconName::Select => 4,
        IconName::Close => 5,
        IconName::Expand => 6,
        IconName::Collapse => 7,
        IconName::Download => 8,
        IconName::Home => 9,
        IconName::Upload => 10,
        IconName::Up => 11,
        IconName::Down => 12,
        IconName::Retry => 13,
    }
}

/// The icon numbered `v` (below `ICONS_SIZE`).
pub open spec fn icon_at(v: nat) -> IconName {
    if v == 0 { IconName::Folder }
    else if v == 1 { IconName::File }
    else if v == 2 { IconName::Video }
    else if v == 3 { IconName::Audio }
    else if v == 4 { IconName::Select }
    else if v == 5 { IconName::Close }
    else if v == 6 { IconName::Expand }
    else if v == 7 { IconName::Collapse }
    else if v == 8 { IconName::Download }
    else if v == 9 { IconName::Home }
    else if v == 10 { IconName::Upload }
    else if v == 11 { IconName::Up }
    else if v == 12 { IconName::Down }
    else { IconName::Retry }
}

/// The images of the icons, as bytes, one per icon and in the order of `IconName`.
pub struct Icons {
    pub images: Vec<Vec<u8>>,
}

impl Icons {
    /// There is one image per icon.
    pub open spec fn well_formed(&self) -> bool {
        self.images@.len() == ICONS_SIZE
    }

    /// The table of the images `images`, given in the order of `IconName`;
    /// `None` unless there is exactly one per icon.
    pub fn new(images: Vec<Vec<u8>>) -> (r: Option<Icons>)
        ensures
            r is Some <==> images@.len() == ICONS_SIZE,
            r matches Some(t) ==> t.images@ == images@,
    {
        if images.len() == ICONS_SIZE {
            Some(Icons { images })
        } else {
            None
        }
    }
}

impl IconName {
    /// The number of the icon.
    pub fn index(self) -> (r: u8)
        ensures
            r == icon_index(self),
    {
        match self {
            IconName::Folder => 0,
            IconName::File => 1,
            IconName::Video => 2,
            IconName::Audio => 3,
            IconName::Select => 4,
            IconName::Close => 5,
            IconName::Expand => 6,
            IconName::Collapse => 7,
            IconName::Download => 8,
            IconName::Home => 9,
            IconName::Upload => 10,
            IconName::Up => 11,
            IconName::Down => 12,
            IconName::Retry => 13,
        }
    }

    /// The icon numbered `value`.
    pub fn from_index(value: u8) -> (r: IconName)
        requires
            value < ICONS_SIZE,
        ensures
            r == icon_at(value as nat),
            icon_index(r) == value,
    {
        if value == 0 { IconName::Folder }
        else if value == 1 { IconName::File }
        else if value == 2 { IconName::Video }
        else if value == 3 { IconName::Audio }
        else if value == 4 { IconName::Select }
        else if value == 5 { IconName::Close }
        else if value == 6 { IconName::Expand }
        else if value == 7 { IconName::Collapse }
        else if value == 8 { IconName::Download }
        else if value == 9 { IconName::Home }
        else if value == 10 { IconName::Upload }
        else if value == 11 { IconName::Up }
        else if value == 12 { IconName::Down }
        else { IconName::Retry }
    }

    /// The image of the icon in the table `icons`.
    pub fn get(self, icons: &Icons) -> (r: &[u8])
        requires
            icons.well_formed(),
        ensures
            r@ == icons.images@[icon_index(self) as int]@,
    {
        let i = self.index();
        icons.images[i as usize].as_slice()
    }
}


impl From<IconName> for u8 {
    /// The number of the icon.
    fn from(val: IconName) -> (r: u8) {
        val.index()
    }
}

impl vstd::std_specs::convert::FromSpecImpl<IconName> for u8 {
    open spec fn obeys_from_spec() -> bool {
        true
    }

    open spec fn from_spec(val: IconName) -> u8 {
        icon_index(val) as u8
    }
}

/// The icon of an entry of the kind `k`.
pub open spec fn kind_icon(k: UnitKind) -> IconName {
    match k {
        UnitKind::Dirctory => IconName::Folder,
        UnitKind::Video => IconName::Video,
        UnitKind::Audio => IconName::Audio,
        UnitKind::File => IconName::File,
    }
}

/// The icon of an entry of the kind `k`.
pub fn icon_of_kind(k: UnitKind) -> (r: IconName)
    ensures
        r == kind_icon(k),
{
    match k {
        UnitKind::Dirctory => IconName::Folder,
        UnitKind::Video => IconName::Video,
        UnitKind::Audio => IconName::Audio,
        UnitKind::File => IconName::File,
    }
}


impl From<UnitKind> for IconName {
    /// The icon of an entry of the kind `value`.
    fn from(value: UnitKind) -> (r: IconName) {
        icon_of_kind(value)
    }
}

impl vstd::std_specs::convert::FromSpecImpl<UnitKind> for IconName {
    open spec fn obeys_from_spec() -> bool {
        true
    }

    open spec fn from_spec(value: UnitKind) -> IconName {
        kind_icon(value)
    }
}

impl Unit {
    /// The image of the icon of the entry's kind.
    pub fn icon<'a>(&self, icons: &'a Icons) -> (r: &'a [u8])
        requires
            icons.well_formed(),
        ensures
            r@ == icons.images@[icon_index(kind_icon(self.kind)) as int]@,
    {
        IconName::from(self.kind).get(icons)
    }
}

/// The image of the icon numbered `name`, when there is such an icon.
pub fn icon_by_number(name: u8, icons: &Icons) -> (r: Option<&[u8]>)
    requires
        icons.well_formed(),
    ensures
        name < ICONS_SIZE ==> (r matches Some(img) && img@ == icons.images@[name as int]@),
        name >= ICONS_SIZE ==> r is None,
{
    if name as usize >= ICONS_SIZE {
        return None;
    }
    let n = IconName::from_index(name);
    Some(n.get(icons))
}

/// Numbering the icons and reading the number back gives the same icon, and every
/// number below `ICONS_SIZE` is the number of the icon it reads as.
pub proof fn lemma_icon_numbering(n: IconName, v: nat)
    ensures
        icon_at(icon_index(n)) == n,
        icon_index(n) < ICONS_SIZE,
        v < ICONS_SIZE ==> icon_index(icon_at(v)) == v,
{
}

/// Distinct icons have distinct numbers, so no two icons share an image.
pub proof fn lemma_icon_index_injective(a: IconName, b: IconName)
    ensures
        icon_index(a) == icon_index(b) ==> a == b,
{
    lemma_icon_numbering(a, 0);
    lemma_icon_numbering(b, 0);
}

/// Each kind of entry is shown with its own icon: a folder with the folder icon, a
/// video with the video icon, audio with the audio icon, any other file with the
/// file icon; so no two kinds share an icon.
pub proof fn lemma_each_kind_its_icon(a: UnitKind, b: UnitKind)
    ensures
        kind_icon(UnitKind::Dirctory) == IconName::Folder,
        kind_icon(UnitKind::Video) == IconName::Video,
        kind_icon(UnitKind::Audio) == IconName::Audio,
        kind_icon(UnitKind::File) == IconName::File,
        kind_icon(a) == kind_icon(b) ==> a == b,
{
}

} // verus!
