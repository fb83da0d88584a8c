//! The course calendar: the records that its listings hold, the addresses
//! that serve them, and the rule that picks a faculty's departments out of
//! the calendar's table.
use crate::text::{
    contains, from_chars, occurs_in, replace_all, replaced, strip_suffix, to_chars,
    without_suffix,
};
use scraper::{ElementRef, Html, Selector};
use vstd::prelude::*;
use vstd::string::StringExecFns;

verus! {

/// The site that serves the calendar.
pub const BASE_URL: &'static str = "https://www.torontomu.ca";

/// The path of the calendar's course pages on the site.
pub const COURSE_PATH: &'static str = "/calendar/2024-2025/courses";

/// The prefix of a department link that the site's addresses leave out.
pub const CONTENT_ROOT: &'static str = "/content/ryerson";

/// The path, below a department's page, of its course listing.
pub const LISTING_PATH: &'static str = "/jcr:content/content/rescalendarcoursestack.data.1.json";

/// The ending of a department link that names a page.
pub const PAGE_SUFFIX: &'static str = ".html";

/// One department's course listing.
#[derive(Debug, Clone, PartialEq)]
pub struct CourseResponse {
    pub hits_per_page: i32,
    pub total_matches: i32,
    pub original_offset: i32,
    pub data: Vec<Course>,
}

/// One course of a listing. The requisite fields hold plain text.
#[derive(Debug, Clone, PartialEq)]
pub struct Course {
    pub page: String,
    pub course_code: String,
    pub long_title: String,
    pub course_description: String,
    pub gpa_weight: String,
    pub data_url: Option<String>,
    pub lecture_length: Option<String>,
    pub lab_length: Option<String>,
    pub tutorial_length: Option<String>,
    pub billing_unit: Option<String>,
    pub course_count: Option<String>,
    pub prerequisites: Option<String>,
    pub antirequisites: Option<String>,
    pub corequisites: Option<String>,
    pub customrequisites: Option<String>,
    pub course_attribute: Option<String>,
    pub consent: Option<String>,
}

/// One cell of a table row, as plain values.
#[derive(Debug, Clone, PartialEq)]
pub struct TableCell {
    /// The text of the cell.
    pub text: String,
    /// For each link in the cell, in order, the address that it points to,
    /// or `None` where the link has no address.
    pub links: Vec<Option<String>>,
}

/// One row of a table of a page, as plain values.
#[derive(Debug, Clone, PartialEq)]
pub struct TableRow {
    /// The cells of the row, in order.
    pub cells: Vec<TableCell>,
}

/// The model of a [`TableCell`].
pub struct CellModel {
    pub text: Seq<char>,
    pub links: Seq<Option<Seq<char>>>,
}

/// The model of a [`TableRow`].
pub struct RowModel {
    pub cells: Seq<CellModel>,
}

impl View for TableCell {
    type V = CellModel;

    open spec fn view(&self) -> CellModel {
        CellModel {
            text: self.text@,
            links: Seq::new(
                self.links@.len(),
                |i: int|
                    match self.links@[i] {
                        Some(address) => Some(address@),
                        None => None,
                    },
            ),
        }
    }
}

impl View for TableRow {
    type V = RowModel;

    open spec fn view(&self) -> RowModel {
        RowModel { cells: Seq::new(self.cells@.len(), |i: int| self.cells@[i]@) }
    }
}

/// The models of the rows in `rows`, in order.
pub open spec fn row_models(rows: Seq<TableRow>) -> Seq<RowModel> {
    Seq::new(rows.len(), |i: int| rows[i]@)
}

/// The table rows of the page `html`: for each `tr` element that
/// `scraper::Html::select` yields for the parsed document, in that order,
/// its `td` elements with their text and the `href` of each of their `a`
/// elements.
pub uninterp spec fn document_rows(html: Seq<char>) -> Seq<RowModel>;

/// Calls `scraper::Html::parse_document` on `html` and reads every `tr`
/// element that `select` yields into a [`TableRow`]: its `td` elements by
/// `ElementRef::select`, the text of each by `text()`, and the `href` of
/// each `a` element in it by `attr`. The contract gives the rows the name
/// [`document_rows`] and claims nothing else of them.
#[verifier::external_body]
fn rows_of_document(html: &str) -> (rows: Vec<TableRow>)
    ensures
        row_models(rows@) == document_rows(html@),
{
    let tr = Selector::parse("tr").unwrap();
    let td = Selector::parse("td").unwrap();
    let a = Selector::parse("a").unwrap();
    let address = |link: ElementRef| link.value().attr("href").map(String::from);
    let cell = |cell: ElementRef| TableCell {
        text: cell.text().collect(),
        links: cell.select(&a).map(address).collect(),
    };
    let row = |row: ElementRef| TableRow { cells: row.select(&td).map(cell).collect() };
    Html::parse_document(html).select(&tr).map(row).collect()
}

/// The department that `row` lists for `faculty`: the address of the first
/// link in the first cell, without the page suffix, where the row has
/// exactly two cells, the text of the second names `faculty`, and the
/// first cell has a link and that link has an address.
pub open spec fn department_of(row: RowModel, faculty: Seq<char>) -> Option<Seq<char>> {
    if row.cells.len() == 2 && occurs_in(row.cells[1].text, faculty) && row.cells[0].links.len()
        > 0 {
        match row.cells[0].links[0] {
            Some(address) => Some(without_suffix(address, PAGE_SUFFIX@)),
            None => None,
        }
    } else {
        None
    }
}

/// The departments that `rows` list for `faculty`, in the order of the rows.
pub open spec fn departments_of(rows: Seq<RowModel>, faculty: Seq<char>) -> Seq<Seq<char>>
    decreases rows.len(),
{
    if rows.len() == 0 {
        Seq::empty()
    } else {
        let before = departments_of(rows.drop_last(), faculty);
        match department_of(rows.last(), faculty) {
            Some(department) => before.push(department),
            None => before,
        }
    }
}

/// Picks the departments of `faculty` out of table rows.
pub fn select_departments(rows: &Vec<TableRow>, faculty: &str) -> (departments: Vec<String>)
    ensures
        departments.deep_view() == departments_of(row_models(rows@), faculty@),
{
    let name = to_chars(faculty);
    let suffix = to_chars(PAGE_SUFFIX);
    let mut departments: Vec<String> = Vec::new();
    let mut i: usize = 0;
    while i < rows.len()
        invariant
            i <= rows.len(),
            name@ == faculty@,
            suffix@ == PAGE_SUFFIX@,
            departments.deep_view() == departments_of(row_models(rows@).take(i as int), faculty@),
        decreases rows.len() - i,
    {
        let row = &rows[i];
        let ghost before = departments.deep_view();
        proof {
            assert(row_models(rows@).take(i + 1).drop_last() =~= row_models(rows@).take(i as int));
            assert(row_models(rows@).take(i + 1).last() == row@);
        }
        if row.cells.len() == 2 && row.cells[0].links.len() > 0 {
            let text = to_chars(row.cells[1].text.as_str());
            if contains(&text, &name) {
                match &row.cells[0].links[0] {
                    Some(address) => {
                        let department = from_chars(
                            &strip_suffix(&to_chars(address.as_str()), &suffix),
                        );
                        departments.push(department);
                        assert(departments.deep_view() =~= before.push(department@));
                    },
                    None => {},
                }
            }
        }
        i += 1;
    }
    assert(row_models(rows@).take(rows.len() as int) =~= row_models(rows@));
    departments
}

/// Picks the departments of `faculty` out of the calendar's page `html`:
/// reads the table rows of the page and selects among them.
pub fn departments_in(html: &str, faculty: &str) -> (departments: Vec<String>)
    ensures
        departments.deep_view() == departments_of(document_rows(html@), faculty@),
{
    let rows = rows_of_document(html);
    select_departments(&rows, faculty)
}

/// The address of the calendar's table of departments.
pub fn catalog_url() -> (url: String)
    ensures
        url@ == BASE_URL@ + COURSE_PATH@,
{
    let mut url = String::from_str(BASE_URL);
    url.append(COURSE_PATH);
    url
}

/// The path of a department on the site: its link without every
/// occurrence of [`CONTENT_ROOT`].
pub open spec fn site_path(department: Seq<char>) -> Seq<char> {
    replaced(department, CONTENT_ROOT@, Seq::empty())
}

/// The address of the page of the department with the link `department`,
/// which a request for its listing names as the referer.
pub fn referer_url(department: &str) -> (url: String)
    ensures
        url@ == BASE_URL@ + site_path(department@),
{
    let empty: Vec<char> = Vec::new();
    let path = from_chars(&replace_all(&to_chars(department), &to_chars(CONTENT_ROOT), &empty));
    let mut url = String::from_str(BASE_URL);
    url.append(path.as_str());
    url
}

/// The address of the course listing of the department with the link
/// `department`.
pub fn listing_url(department: &str) -> (url: String)
    ensures
        url@ == BASE_URL@ + site_path(department@) + LISTING_PATH@,
{
    let mut url = referer_url(department);
    url.append(LISTING_PATH);
    url
}

} // verus!
