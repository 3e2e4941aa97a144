//! Tests for the XMP vendor heuristics.

use tag2dir::xmp::parse_xmp_xml;

fn run(xml: &str) -> (Vec<String>, Vec<String>) {
    let mut persons: Vec<String> = Vec::new();
    let mut keywords: Vec<String> = Vec::new();
    parse_xmp_xml(xml, &mut persons, &mut keywords);
    (persons, keywords)
}

#[test]
fn subject_li_values_become_keywords() {
    let xml = r#"<x:xmpmeta xmlns:x="adobe:ns:meta/"
            xmlns:rdf="http://www.w3.org/1999/02/22-rdf-syntax-ns#"
            xmlns:dc="http://purl.org/dc/elements/1.1/">
        <rdf:RDF><rdf:Description>
            <dc:subject><rdf:Bag>
                <rdf:li> Alice </rdf:li>
                <rdf:li>Bob</rdf:li>
                <rdf:li>   </rdf:li>
            </rdf:Bag></dc:subject>
        </rdf:Description></rdf:RDF></x:xmpmeta>"#;
    let (persons, keywords) = run(xml);
    assert_eq!(keywords, vec!["Alice".to_string(), "Bob".to_string()]);
    assert!(persons.is_empty());
}

#[test]
fn region_name_elements_become_persons() {
    let xml = r#"<x:xmpmeta xmlns:x="adobe:ns:meta/"
            xmlns:rdf="http://www.w3.org/1999/02/22-rdf-syntax-ns#"
            xmlns:mwg-rs="http://www.metadataworkinggroup.com/schemas/regions/">
        <rdf:RDF><rdf:Description>
            <mwg-rs:Regions><mwg-rs:RegionList><rdf:Bag><rdf:li>
                <mwg-rs:Name> Zoe </mwg-rs:Name>
            </rdf:li></rdf:Bag></mwg-rs:RegionList></mwg-rs:Regions>
        </rdf:Description></rdf:RDF></x:xmpmeta>"#;
    let (persons, keywords) = run(xml);
    // Both the Regions and the nested RegionList rule fire on the walk.
    assert_eq!(persons, vec!["Zoe".to_string(), "Zoe".to_string()]);
    assert!(keywords.is_empty());
}

#[test]
fn region_name_attributes_become_persons() {
    let xml = r#"<x:xmpmeta xmlns:x="adobe:ns:meta/"
            xmlns:rdf="http://www.w3.org/1999/02/22-rdf-syntax-ns#"
            xmlns:mp="http://ns.microsoft.com/photo/1.2/">
        <rdf:RDF><rdf:Description>
            <mp:RegionInfo>
                <mp:Region mp:PersonDisplayName="Max" mp:Rectangle="true"/>
            </mp:RegionInfo>
        </rdf:Description></rdf:RDF></x:xmpmeta>"#;
    let (persons, keywords) = run(xml);
    assert_eq!(persons, vec!["Max".to_string()]);
    assert!(keywords.is_empty());
}

#[test]
fn boolean_attribute_values_are_not_persons() {
    let xml = r#"<x:xmpmeta xmlns:x="adobe:ns:meta/"
            xmlns:mp="http://ns.microsoft.com/photo/1.2/">
        <mp:RegionInfo><mp:Region mp:HasName="true"/></mp:RegionInfo>
        </x:xmpmeta>"#;
    let (persons, _keywords) = run(xml);
    assert!(persons.is_empty());
}

#[test]
fn hierarchical_subject_people_prefix() {
    let xml = r#"<x:xmpmeta xmlns:x="adobe:ns:meta/"
            xmlns:rdf="http://www.w3.org/1999/02/22-rdf-syntax-ns#"
            xmlns:lr="http://ns.adobe.com/lightroom/1.0/">
        <rdf:RDF><rdf:Description>
            <lr:hierarchicalSubject><rdf:Bag>
                <rdf:li>People|Alice</rdf:li>
                <rdf:li>Places|Paris</rdf:li>
                <rdf:li>NoSeparator</rdf:li>
            </rdf:Bag></lr:hierarchicalSubject>
        </rdf:Description></rdf:RDF></x:xmpmeta>"#;
    let (persons, keywords) = run(xml);
    assert_eq!(persons, vec!["Alice".to_string()]);
    assert!(keywords.is_empty());
}

#[test]
fn hierarchical_subject_category_is_case_folded() {
    let xml = r#"<x:xmpmeta xmlns:x="adobe:ns:meta/"
            xmlns:rdf="http://www.w3.org/1999/02/22-rdf-syntax-ns#"
            xmlns:lr="http://ns.adobe.com/lightroom/1.0/">
        <rdf:RDF><rdf:Description>
            <lr:hierarchicalSubject><rdf:Bag>
                <rdf:li>PEOPLE|Family| Ann </rdf:li>
            </rdf:Bag></lr:hierarchicalSubject>
        </rdf:Description></rdf:RDF></x:xmpmeta>"#;
    let (persons, _keywords) = run(xml);
    assert_eq!(persons, vec!["Ann".to_string()]);
}

#[test]
fn tags_list_people_prefix() {
    let xml = r#"<x:xmpmeta xmlns:x="adobe:ns:meta/"
            xmlns:rdf="http://www.w3.org/1999/02/22-rdf-syntax-ns#"
            xmlns:digiKam="http://www.digikam.org/ns/1.0/">
        <rdf:RDF><rdf:Description>
            <digiKam:TagsList><rdf:Seq>
                <rdf:li>People/Ann</rdf:li>
                <rdf:li>Events/Party</rdf:li>
            </rdf:Seq></digiKam:TagsList>
        </rdf:Description></rdf:RDF></x:xmpmeta>"#;
    let (persons, keywords) = run(xml);
    assert_eq!(persons, vec!["Ann".to_string()]);
    assert!(keywords.is_empty());
}

#[test]
fn unparsable_xml_yields_nothing() {
    let (persons, keywords) = run("<x:xmpmeta not closed");
    assert!(persons.is_empty());
    assert!(keywords.is_empty());
}

#[test]
fn appends_to_existing_candidates() {
    let xml = r#"<x:xmpmeta xmlns:x="adobe:ns:meta/"
            xmlns:rdf="http://www.w3.org/1999/02/22-rdf-syntax-ns#"
            xmlns:dc="http://purl.org/dc/elements/1.1/">
        <dc:subject><rdf:Bag><rdf:li>New</rdf:li></rdf:Bag></dc:subject>
        </x:xmpmeta>"#;
    let mut persons: Vec<String> = Vec::new();
    let mut keywords: Vec<String> = vec!["Old".to_string()];
    parse_xmp_xml(xml, &mut persons, &mut keywords);
    assert_eq!(keywords, vec!["Old".to_string(), "New".to_string()]);
}
